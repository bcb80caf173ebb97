//! The copy register, and the escape sequence that hands a copy to the terminal.

use vstd::prelude::*;
use vstd::utf8::encode_utf8;

use crate::strings::{byte_len, byte_length, to_chars};

verus! {

/// Terminals cap OSC 52 payloads (xterm: ~100 KB) and silently drop larger
/// sequences, so one that cannot arrive is not sent.
pub const MAX_PAYLOAD: usize = 99_000;

/// The base64 character for a six-bit value.
pub open spec fn base64_char(n: int) -> char {
    if n < 26 {
        ('A' as int + n) as char
    } else if n < 52 {
        ('a' as int + n - 26) as char
    } else if n < 62 {
        ('0' as int + n - 52) as char
    } else if n == 62 {
        '+'
    } else {
        '/'
    }
}

/// The four characters for up to three bytes, padded with `=`.
pub open spec fn base64_group(input: Seq<u8>) -> Seq<char> {
    let b0 = input[0] as int;
    let b1 = if input.len() > 1 {
        input[1] as int
    } else {
        0
    };
    let b2 = if input.len() > 2 {
        input[2] as int
    } else {
        0
    };
    seq![
        base64_char(b0 / 4),
        base64_char((b0 % 4) * 16 + b1 / 16),
        if input.len() > 1 {
            base64_char((b1 % 16) * 4 + b2 / 64)
        } else {
            '='
        },
        if input.len() > 2 {
            base64_char(b2 % 64)
        } else {
            '='
        },
    ]
}

/// Standard base64, three bytes at a time.
pub open spec fn base64(input: Seq<u8>) -> Seq<char>
    decreases input.len(),
{
    if input.len() == 0 {
        Seq::empty()
    } else if input.len() <= 3 {
        base64_group(input)
    } else {
        base64_group(input.take(3)) + base64(input.skip(3))
    }
}

/// The value of a base64 character, the inverse of [`base64_char`].
pub open spec fn base64_value(c: char) -> int {
    if 'A' <= c <= 'Z' {
        c as int - 'A' as int
    } else if 'a' <= c <= 'z' {
        c as int - 'a' as int + 26
    } else if '0' <= c <= '9' {
        c as int - '0' as int + 52
    } else if c == '+' {
        62
    } else {
        63
    }
}

/// The bytes that a base64 text stands for.
pub open spec fn base64_decoded(text: Seq<char>) -> Seq<u8>
    decreases text.len(),
{
    if text.len() < 4 {
        Seq::empty()
    } else {
        let v0 = base64_value(text[0]);
        let v1 = base64_value(text[1]);
        let v2 = base64_value(text[2]);
        let v3 = base64_value(text[3]);
        let first = seq![(v0 * 4 + v1 / 16) as u8];
        let second = if text[2] == '=' {
            Seq::empty()
        } else {
            seq![((v1 % 16) * 16 + v2 / 4) as u8]
        };
        let third = if text[3] == '=' {
            Seq::empty()
        } else {
            seq![((v2 % 4) * 64 + v3) as u8]
        };
        first + second + third + base64_decoded(text.skip(4))
    }
}

proof fn lemma_base64_char(n: int)
    requires
        0 <= n < 64,
    ensures
        base64_value(base64_char(n)) == n,
        base64_char(n) != '=',
{
}

proof fn lemma_base64_group(head: Seq<u8>)
    requires
        1 <= head.len() <= 3,
    ensures
        base64_decoded(base64_group(head)) == head,
{
    let g = base64_group(head);
    let b0 = head[0] as int;
    let b1: int = if head.len() > 1 {
        head[1] as int
    } else {
        0
    };
    let b2: int = if head.len() > 2 {
        head[2] as int
    } else {
        0
    };
    lemma_base64_char(b0 / 4);
    lemma_base64_char((b0 % 4) * 16 + b1 / 16);
    lemma_base64_char((b1 % 16) * 4 + b2 / 64);
    lemma_base64_char(b2 % 64);
    assert(base64_decoded(g.skip(4)) =~= Seq::<u8>::empty());
    assert(base64_decoded(g) =~= head);
}

proof fn lemma_base64_decoded_step(group: Seq<char>, rest: Seq<char>)
    requires
        group.len() == 4,
    ensures
        base64_decoded(group + rest) == base64_decoded(group) + base64_decoded(rest),
{
    assert((group + rest).skip(4) =~= rest);
    assert(base64_decoded(group.skip(4)) =~= Seq::<u8>::empty());
    assert(base64_decoded(group + rest) =~= base64_decoded(group) + base64_decoded(rest));
}

/// Every byte sequence can be read back from its base64 text.
pub proof fn lemma_base64_is_invertible(input: Seq<u8>)
    ensures
        base64_decoded(base64(input)) == input,
    decreases input.len(),
{
    if input.len() > 3 {
        lemma_base64_is_invertible(input.skip(3));
        lemma_base64_group(input.take(3));
        lemma_base64_decoded_step(base64_group(input.take(3)), base64(input.skip(3)));
        assert(input =~= input.take(3) + input.skip(3));
    } else if input.len() > 0 {
        lemma_base64_group(input);
    }
}

/// The length of a base64 text: four characters for every three bytes begun.
pub proof fn lemma_base64_length(input: Seq<u8>)
    ensures
        base64(input).len() == (input.len() + 2) / 3 * 4,
    decreases input.len(),
{
    if input.len() > 3 {
        lemma_base64_length(input.skip(3));
    }
}

fn base64_digit(n: u8) -> (c: char)
    requires
        n < 64,
    ensures
        c == base64_char(n as int),
{
    if n < 26 {
        (65 + n) as char
    } else if n < 52 {
        (71 + n) as char
    } else if n < 62 {
        (n - 4) as char
    } else if n == 62 {
        '+'
    } else {
        '/'
    }
}

/// Minimal standard base64 encoder.
pub fn base64_encode(input: &[u8]) -> (out: String)
    ensures
        out@ == base64(input@),
{
    let mut out = String::new();
    let mut i: usize = 0;
    assert(input@.skip(0) =~= input@);
    while i < input.len()
        invariant
            i <= input@.len(),
            out@ + base64(input@.skip(i as int)) == base64(input@),
        decreases input@.len() - i,
    {
        let ghost rest = input@.skip(i as int);
        let left: usize = input.len() - i;
        let b0: u8 = input[i];
        let b1: u8 = if left > 1 {
            input[i + 1]
        } else {
            0
        };
        let b2: u8 = if left > 2 {
            input[i + 2]
        } else {
            0
        };
        let ghost before = out@;
        out.push(base64_digit(b0 / 4));
        out.push(base64_digit((b0 % 4) * 16 + b1 / 16));
        out.push(
            if left > 1 {
                base64_digit((b1 % 16) * 4 + b2 / 64)
            } else {
                '='
            },
        );
        out.push(
            if left > 2 {
                base64_digit(b2 % 64)
            } else {
                '='
            },
        );
        let step: usize = if left < 3 {
            left
        } else {
            3
        };
        proof {
            let head = rest.take(step as int);
            assert(out@ =~= before + base64_group(head));
            if left <= 3 {
                assert(head =~= rest);
                assert(input@.skip(i + step) =~= Seq::empty());
                assert(out@ + base64(input@.skip(i + step)) =~= before + base64(rest));
            } else {
                assert(input@.skip(i + step) =~= rest.skip(3));
                assert(out@ + base64(input@.skip(i + step)) =~= before + base64(rest));
            }
        }
        i += step;
    }
    assert(input@.skip(i as int) =~= Seq::empty());
    assert(out@ + base64(input@.skip(i as int)) =~= out@);
    out
}

/// `text` with every escape character doubled.
pub open spec fn escapes_doubled(text: Seq<char>) -> Seq<char>
    decreases text.len(),
{
    if text.len() == 0 {
        Seq::empty()
    } else if text.last() == '\u{1b}' {
        escapes_doubled(text.drop_last()) + seq!['\u{1b}', '\u{1b}']
    } else {
        escapes_doubled(text.drop_last()).push(text.last())
    }
}

/// The OSC 52 sequence for a payload.
pub open spec fn osc52(payload: Seq<char>) -> Seq<char> {
    "\x1b]52;c;"@ + payload + "\x07"@
}

/// What is sent to the terminal so that it takes `text` as its clipboard: nothing
/// where the payload is too long, and inside tmux the sequence wrapped in a
/// passthrough with its escapes doubled.
pub open spec fn clipboard_sequence(text: Seq<char>, tmux: bool) -> Option<Seq<char>> {
    let payload = base64(encode_utf8(text));
    if byte_len(payload) > MAX_PAYLOAD {
        None
    } else if tmux {
        Some("\x1bPtmux;"@ + escapes_doubled(osc52(payload)) + "\x1b\\"@)
    } else {
        Some(osc52(payload))
    }
}

fn double_escapes(text: &str) -> (out: String)
    ensures
        out@ == escapes_doubled(text@),
{
    let chars = to_chars(text);
    let mut out = String::new();
    let mut i: usize = 0;
    assert(text@.take(0) =~= Seq::empty());
    while i < chars.len()
        invariant
            i <= chars@.len(),
            chars@ == text@,
            out@ == escapes_doubled(text@.take(i as int)),
        decreases chars@.len() - i,
    {
        let ghost before = out@;
        out.push(chars[i]);
        if chars[i] == '\u{1b}' {
            out.push('\u{1b}');
            assert(out@ =~= before + seq!['\u{1b}', '\u{1b}']);
        }
        i += 1;
        assert(text@.take(i as int).drop_last() =~= text@.take(i - 1));
    }
    assert(text@.take(i as int) =~= text@);
    out
}

/// The escape sequence that sets the terminal's clipboard to `text`.
pub fn osc52_sequence(text: &str, tmux: bool) -> (out: Option<String>)
    ensures
        match out {
            Some(s) => clipboard_sequence(text@, tmux) == Some(s@),
            None => clipboard_sequence(text@, tmux) is None,
        },
{
    let payload = base64_encode(text.as_bytes());
    if byte_length(payload.as_str()) > MAX_PAYLOAD {
        return None;
    }
    let mut sequence = String::from_str("\x1b]52;c;");
    sequence.append(payload.as_str());
    sequence.append("\x07");
    if tmux {
        let mut wrapped = String::from_str("\x1bPtmux;");
        wrapped.append(double_escapes(sequence.as_str()).as_str());
        wrapped.append("\x1b\\");
        return Some(wrapped);
    }
    Some(sequence)
}

/// The internal register, an always-available fallback for the system clipboard.
pub struct Clipboard {
    register: String,
    /// Whether copies may be handed to the terminal by an escape sequence.
    allow_osc52: bool,
}

impl Clipboard {
    /// The text in the register.
    pub closed spec fn register(&self) -> Seq<char> {
        self.register@
    }

    /// Whether copies may be handed to the terminal.
    pub closed spec fn allows_osc52(&self) -> bool {
        self.allow_osc52
    }

    /// An empty register beside a system clipboard.
    pub fn new() -> (c: Self)
        ensures
            c.register() == Seq::<char>::empty(),
            c.allows_osc52(),
    {
        Clipboard { register: String::new(), allow_osc52: true }
    }

    /// A clipboard that uses only the internal register.
    pub fn internal_only() -> (c: Self)
        ensures
            c.register() == Seq::<char>::empty(),
            !c.allows_osc52(),
    {
        Clipboard { register: String::new(), allow_osc52: false }
    }

    /// Copy `text`: the register always takes it. The result says whether the
    /// terminal is to be given the text too: whenever the system clipboard did not
    /// take the copy, and on Linux in any case, where a copy would otherwise vanish
    /// with the process.
    pub fn set(&mut self, text: &str, copied: bool, linux: bool) -> (emit: bool)
        ensures
            final(self).register() == text@,
            final(self).allows_osc52() == old(self).allows_osc52(),
            emit == ((!copied || linux) && old(self).allows_osc52()),
    {
        self.register = text.to_owned();
        (!copied || linux) && self.allow_osc52
    }

    /// Read the clipboard, preferring what the system clipboard gave and falling
    /// back to the register.
    pub fn get(&self, system: Option<String>) -> (text: String)
        ensures
            text@ == match system {
                Some(s) => s@,
                None => self.register(),
            },
    {
        match system {
            Some(text) => text,
            None => self.register.clone(),
        }
    }
}

} // verus!

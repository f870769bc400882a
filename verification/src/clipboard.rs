//! Copying to the terminal's clipboard with the OSC 52 escape sequence.
use vstd::prelude::*;
use base64::Engine;
use crate::text::utf8_bytes;

verus! {

/// The UTF-8 encoding of one character.
pub open spec fn utf8_of_char(c: char) -> Seq<u8> {
    let u = c as u32 as int;
    if u < 0x80 {
        seq![u as u8]
    } else if u < 0x800 {
        seq![(0xC0 + u / 64) as u8, (0x80 + u % 64) as u8]
    } else if u < 0x10000 {
        seq![(0xE0 + u / 4096) as u8, (0x80 + (u / 64) % 64) as u8, (0x80 + u % 64) as u8]
    } else {
        seq![
            (0xF0 + u / 262144) as u8,
            (0x80 + (u / 4096) % 64) as u8,
            (0x80 + (u / 64) % 64) as u8,
            (0x80 + u % 64) as u8,
        ]
    }
}

/// The UTF-8 bytes of a text (`str::as_bytes`).
pub open spec fn utf8_of(s: Seq<char>) -> Seq<u8>
    decreases s.len(),
{
    if s.len() == 0 {
        Seq::empty()
    } else {
        utf8_of(s.drop_last()) + utf8_of_char(s.last())
    }
}

/// The character of the standard base64 alphabet for a six-bit value.
pub open spec fn b64_char(v: int) -> char {
    if v < 26 {
        (('A' as u32) + v) as char
    } else if v < 52 {
        (('a' as u32) + (v - 26)) as char
    } else if v < 62 {
        (('0' as u32) + (v - 52)) as char
    } else if v == 62 {
        '+'
    } else {
        '/'
    }
}

/// The standard, padded base64 encoding of `b` (RFC 4648): each group of
/// three bytes as four characters of six bits each; a last group of one or
/// two bytes as two or three characters and `=` up to four.
pub open spec fn base64_spec(b: Seq<u8>) -> Seq<char>
    decreases b.len(),
{
    if b.len() == 0 {
        Seq::empty()
    } else if b.len() == 1 {
        let n = b[0] * 65536;
        seq![b64_char(n / 262144), b64_char((n / 4096) % 64), '=', '=']
    } else if b.len() == 2 {
        let n = b[0] * 65536 + b[1] * 256;
        seq![b64_char(n / 262144), b64_char((n / 4096) % 64), b64_char((n / 64) % 64), '=']
    } else {
        let n = b[0] * 65536 + b[1] * 256 + b[2];
        seq![
            b64_char(n / 262144),
            b64_char((n / 4096) % 64),
            b64_char((n / 64) % 64),
            b64_char(n % 64),
        ] + base64_spec(b.skip(3))
    }
}

/// Calls `STANDARD.encode` (base64) on the UTF-8 bytes of `text`: their
/// standard, padded base64 encoding, as the crate documents it. The bound
/// keeps the encoded length (4 per 3 bytes, rounded up) within `usize`,
/// beyond which the call panics.
#[verifier::external_body]
fn encode_base64(text: &str) -> (r: String)
    requires
        4 * ((utf8_bytes(text@) + 2) / 3) <= usize::MAX,
    ensures
        r@ == base64_spec(utf8_of(text@)),
{
    base64::engine::general_purpose::STANDARD.encode(text.as_bytes())
}

/// The escape sequence that asks the terminal to put `text` on the
/// clipboard: `ESC ] 52 ; c ;`, the text in base64, then `BEL`.
pub open spec fn osc52_spec(text: Seq<char>) -> Seq<char> {
    seq!['\x1b', ']', '5', '2', ';', 'c', ';'] + base64_spec(utf8_of(text)) + seq!['\x07']
}

/// The OSC 52 sequence for `text` (see `osc52_spec`).
pub fn osc52_sequence(text: &str) -> (r: String)
    requires
        4 * ((utf8_bytes(text@) + 2) / 3) <= usize::MAX,
    ensures
        r@ == osc52_spec(text@),
{
    let encoded = encode_base64(text);
    let mut out = String::new();
    out.push('\x1b');
    out.push(']');
    out.push('5');
    out.push('2');
    out.push(';');
    out.push('c');
    out.push(';');
    crate::text::push_str(&mut out, encoded.as_str());
    out.push('\x07');
    out
}

/// `s` with every `ESC` doubled.
pub open spec fn double_escapes(s: Seq<char>) -> Seq<char>
    decreases s.len(),
{
    if s.len() == 0 {
        Seq::empty()
    } else {
        double_escapes(s.drop_last()) + if s.last() == '\x1b' {
            seq!['\x1b', '\x1b']
        } else {
            seq![s.last()]
        }
    }
}

/// A sequence wrapped so that tmux hands it on to the terminal:
/// `ESC P tmux ;`, the sequence with its `ESC`s doubled, then `ESC \`.
pub open spec fn tmux_spec(s: Seq<char>) -> Seq<char> {
    seq!['\x1b', 'P', 't', 'm', 'u', 'x', ';'] + double_escapes(s) + seq!['\x1b', '\\']
}

/// Wraps `seq` for tmux (see `tmux_spec`).
pub fn tmux_passthrough(seq: &str) -> (r: String)
    ensures
        r@ == tmux_spec(seq@),
{
    let v = crate::text::chars_of(seq);
    let mut out = String::new();
    out.push('\x1b');
    out.push('P');
    out.push('t');
    out.push('m');
    out.push('u');
    out.push('x');
    out.push(';');
    let ghost head = out@;
    let mut i: usize = 0;
    while i < v.len()
        invariant
            i <= v.len(),
            v@ == seq@,
            head == seq!['\x1b', 'P', 't', 'm', 'u', 'x', ';'],
            out@ == head + double_escapes(v@.take(i as int)),
        decreases v.len() - i,
    {
        assert(v@.take(i + 1).drop_last() == v@.take(i as int));
        if v[i] == '\x1b' {
            out.push('\x1b');
            out.push('\x1b');
        } else {
            out.push(v[i]);
        }
        i = i + 1;
    }
    assert(v@.take(v@.len() as int) == v@);
    out.push('\x1b');
    out.push('\\');
    out
}

/// What goes to the terminal to copy `text`: the OSC 52 sequence, wrapped
/// for tmux when running inside it.
pub fn clipboard_sequence(text: &str, in_tmux: bool) -> (r: String)
    requires
        4 * ((utf8_bytes(text@) + 2) / 3) <= usize::MAX,
    ensures
        r@ == if in_tmux {
            tmux_spec(osc52_spec(text@))
        } else {
            osc52_spec(text@)
        },
{
    let seq = osc52_sequence(text);
    if in_tmux {
        tmux_passthrough(seq.as_str())
    } else {
        seq
    }
}

} // verus!

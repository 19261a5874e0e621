//! Subtitle text decoding: UTF-8 (BOM stripped), UTF-16 via BOM, and
//! mostly-ASCII Windows-1252/Latin-1. Shared by subtitle embedding and
//! the WebVTT endpoint.
use vstd::prelude::*;
use vstd::utf8::{decode_utf8, valid_utf8};
use crate::text;

verus! {

/// The character of a Windows-1252 byte: ASCII and Latin-1 map directly;
/// 0x80-0x9F are the punctuation specials, where they are assigned.
pub open spec fn cp1252(b: u8) -> char {
    if b == 0x80 {
        '\u{20AC}'
    } else if b == 0x82 {
        '\u{201A}'
    } else if b == 0x83 {
        '\u{0192}'
    } else if b == 0x84 {
        '\u{201E}'
    } else if b == 0x85 {
        '\u{2026}'
    } else if b == 0x86 {
        '\u{2020}'
    } else if b == 0x87 {
        '\u{2021}'
    } else if b == 0x88 {
        '\u{02C6}'
    } else if b == 0x89 {
        '\u{2030}'
    } else if b == 0x8A {
        '\u{0160}'
    } else if b == 0x8B {
        '\u{2039}'
    } else if b == 0x8C {
        '\u{0152}'
    } else if b == 0x8E {
        '\u{017D}'
    } else if b == 0x91 {
        '\u{2018}'
    } else if b == 0x92 {
        '\u{2019}'
    } else if b == 0x93 {
        '\u{201C}'
    } else if b == 0x94 {
        '\u{201D}'
    } else if b == 0x95 {
        '\u{2022}'
    } else if b == 0x96 {
        '\u{2013}'
    } else if b == 0x97 {
        '\u{2014}'
    } else if b == 0x98 {
        '\u{02DC}'
    } else if b == 0x99 {
        '\u{2122}'
    } else if b == 0x9A {
        '\u{0161}'
    } else if b == 0x9B {
        '\u{203A}'
    } else if b == 0x9C {
        '\u{0153}'
    } else if b == 0x9E {
        '\u{017E}'
    } else if b == 0x9F {
        '\u{0178}'
    } else {
        b as char
    }
}

fn cp1252_char(b: u8) -> (c: char)
    ensures
        c == cp1252(b),
{
    match b {
        0x80 => '\u{20AC}',
        0x82 => '\u{201A}',
        0x83 => '\u{0192}',
        0x84 => '\u{201E}',
        0x85 => '\u{2026}',
        0x86 => '\u{2020}',
        0x87 => '\u{2021}',
        0x88 => '\u{02C6}',
        0x89 => '\u{2030}',
        0x8A => '\u{0160}',
        0x8B => '\u{2039}',
        0x8C => '\u{0152}',
        0x8E => '\u{017D}',
        0x91 => '\u{2018}',
        0x92 => '\u{2019}',
        0x93 => '\u{201C}',
        0x94 => '\u{201D}',
        0x95 => '\u{2022}',
        0x96 => '\u{2013}',
        0x97 => '\u{2014}',
        0x98 => '\u{02DC}',
        0x99 => '\u{2122}',
        0x9A => '\u{0161}',
        0x9B => '\u{203A}',
        0x9C => '\u{0153}',
        0x9E => '\u{017E}',
        0x9F => '\u{0178}',
        other => other as char,
    }
}

/// The 16-bit units that the bytes from `at` on hold; an odd last byte is
/// left over.
pub open spec fn units(b: Seq<u8>, at: int, little: bool) -> Seq<u16> {
    Seq::new(
        if b.len() >= at { ((b.len() - at) / 2) as nat } else { 0 },
        |i: int|
            {
                let x = b[at + 2 * i];
                let y = b[at + 2 * i + 1];
                if little {
                    (y * 256 + x) as u16
                } else {
                    (x * 256 + y) as u16
                }
            },
    )
}

/// How many of the bytes are ASCII.
pub open spec fn ascii_count(b: Seq<u8>) -> int
    decreases b.len(),
{
    if b.len() == 0 {
        0
    } else {
        ascii_count(b.drop_last()) + (if b.last() < 0x80 {
            1int
        } else {
            0
        })
    }
}

/// A text without the byte order mark in front.
pub open spec fn without_mark(s: Seq<char>) -> Seq<char> {
    if s.len() > 0 && s[0] == '\u{feff}' {
        s.drop_first()
    } else {
        s
    }
}

pub open spec fn marked_utf16(b: Seq<u8>) -> bool {
    b.len() >= 2 && ((b[0] == 0xFF && b[1] == 0xFE) || (b[0] == 0xFE && b[1] == 0xFF))
}

/// The text of subtitle bytes, where the encoding can be told: UTF-16 by its
/// mark, UTF-8, or Windows-1252 where at least 95 in 100 bytes are ASCII.
pub open spec fn subtitle_text(b: Seq<u8>) -> Option<Seq<char>> {
    if marked_utf16(b) {
        Some(text::utf16_lossy(units(b, 2, b[0] == 0xFF)))
    } else if valid_utf8(b) {
        Some(without_mark(decode_utf8(b)))
    } else if ascii_count(b) * 100 < b.len() * 95 {
        None
    } else {
        Some(Seq::new(b.len(), |i: int| cp1252(b[i])))
    }
}

/// Decode subtitle bytes to UTF-8 text, or None if the encoding can't be
/// determined safely. Handles: UTF-8 (BOM stripped), UTF-16 LE/BE with a
/// BOM, and Windows-1252/Latin-1 when the content is >= 95% ASCII (the
/// English-subtitle case; a mostly-non-ASCII single-byte file could be any
/// codepage, so those are refused rather than guessed).
pub fn decode_subtitle_text(bytes: &Vec<u8>) -> (r: Option<String>)
    ensures
        text::opt_text(r) == subtitle_text(bytes@),
{
    let n = bytes.len();
    if n >= 2 && ((bytes[0] == 0xFF && bytes[1] == 0xFE) || (bytes[0] == 0xFE && bytes[1]
        == 0xFF)) {
        let little = bytes[0] == 0xFF;
        let mut out: Vec<u16> = Vec::new();
        let mut i: usize = 2;
        while i < n && n - i >= 2
            invariant
                n == bytes.len(),
                2 <= i <= n,
                i % 2 == 0,
                out@.len() == (i - 2) / 2,
                out@ == units(bytes@, 2, little).take((i - 2) / 2),
            decreases n - i,
        {
            let x: u16 = bytes[i] as u16;
            let y: u16 = bytes[i + 1] as u16;
            let unit: u16 = if little {
                y * 256 + x
            } else {
                x * 256 + y
            };
            proof {
                let k = (i - 2) / 2;
                assert(2 + 2 * k == i);
                let u = units(bytes@, 2, little);
                assert(u[k] == unit);
                assert(u.take(k + 1) =~= u.take(k).push(unit));
            }
            out.push(unit);
            i += 2;
        }
        proof {
            let u = units(bytes@, 2, little);
            assert(u.take(u.len() as int) =~= u);
        }
        return Some(text::from_utf16_lossy(&out));
    }
    match text::from_utf8(bytes) {
        Some(t) => {
            let v = text::chars_of(t.as_str());
            if v.len() > 0 && v[0] == '\u{feff}' {
                let s = text::string_of(&v, 1, v.len());
                assert(s@ =~= t@.drop_first());
                return Some(s);
            }
            return Some(t);
        },
        None => {},
    }
    let mut ascii: usize = 0;
    let mut i: usize = 0;
    while i < n
        invariant
            n == bytes.len(),
            i <= n,
            ascii <= i,
            ascii == ascii_count(bytes@.take(i as int)),
        decreases n - i,
    {
        assert(bytes@.take(i + 1).drop_last() =~= bytes@.take(i as int));
        if bytes[i] < 0x80 {
            ascii += 1;
        }
        i += 1;
    }
    assert(bytes@.take(n as int) =~= bytes@);
    if (ascii as u128) * 100 < (n as u128) * 95 {
        return None;
    }
    let mut out = String::new();
    let ghost whole = Seq::new(bytes@.len(), |k: int| cp1252(bytes@[k]));
    let mut i: usize = 0;
    while i < n
        invariant
            n == bytes.len(),
            i <= n,
            whole == Seq::new(bytes@.len(), |k: int| cp1252(bytes@[k])),
            out@ == whole.take(i as int),
        decreases n - i,
    {
        out.push(cp1252_char(bytes[i]));
        i += 1;
        assert(out@ =~= whole.take(i as int));
    }
    assert(whole.take(n as int) =~= whole);
    Some(out)
}

/// Plain ASCII decodes to itself, whatever it says.
pub proof fn ascii_decodes_to_itself(s: Seq<char>)
    requires
        vstd::utf8::is_ascii_chars(s),
    ensures
        subtitle_text(vstd::utf8::encode_utf8(s)) == Some(s),
{
    let b = vstd::utf8::encode_utf8(s);
    vstd::utf8::encode_utf8_valid_utf8(s);
    vstd::utf8::encode_utf8_decode_utf8(s);
    vstd::utf8::is_ascii_chars_encode_utf8(s);
    assert(b =~= Seq::new(s.len(), |i: int| s[i] as u8));
    if s.len() > 0 {
        assert(s[0] as int <= 0x7f);
        assert(b[0] == s[0] as u8);
    }
}

/// A character as UTF-16 units: one, or a pair of surrogates.
pub open spec fn utf16_of(c: char) -> Seq<u16> {
    let n = c as int;
    if n < 0x10000 {
        seq![n as u16]
    } else {
        seq![(0xD800 + (n - 0x10000) / 0x400) as u16, (0xDC00 + (n - 0x10000) % 0x400) as u16]
    }
}

/// A text as UTF-16 units.
pub open spec fn utf16_units(s: Seq<char>) -> Seq<u16>
    decreases s.len(),
{
    if s.len() == 0 {
        seq![]
    } else {
        utf16_of(s[0]) + utf16_units(s.drop_first())
    }
}

/// A text as UTF-16 bytes, the byte order mark in front.
pub open spec fn utf16_bytes(s: Seq<char>, little: bool) -> Seq<u8> {
    let units = utf16_units(s);
    (if little {
        seq![0xFFu8, 0xFEu8]
    } else {
        seq![0xFEu8, 0xFFu8]
    }) + Seq::new(
        2 * units.len(),
        |i: int|
            if (i % 2 == 0) == little {
                (units[i / 2] % 256) as u8
            } else {
                (units[i / 2] / 256) as u8
            },
    )
}

/// A character is no surrogate.
proof fn lemma_scalar(c: char)
    ensures
        0 <= c as int <= 0x10FFFF,
        !(0xD800 <= c as int <= 0xDFFF),
{
}

proof fn lemma_units_read_back(s: Seq<char>)
    ensures
        text::utf16_lossy(utf16_units(s)) == s,
    decreases s.len(),
{
    if s.len() > 0 {
        let rest = utf16_units(s.drop_first());
        let all = utf16_units(s);
        let one = utf16_of(s[0]);
        let n = s[0] as int;
        lemma_units_read_back(s.drop_first());
        assert(all == one + rest);
        lemma_scalar(s[0]);
        if n < 0x10000 {
            assert(one[0] == n);
            assert(all.drop_first() =~= rest);
        } else {
            assert(one[0] == 0xD800 + (n - 0x10000) / 0x400);
            assert(one[1] == 0xDC00 + (n - 0x10000) % 0x400);
            assert(all.skip(2) =~= rest);
        }
        assert(s =~= seq![s[0]] + s.drop_first());
    }
}

/// A text written as UTF-16 behind a byte order mark decodes to itself, in
/// either byte order.
pub proof fn marked_utf16_decodes_to_itself(s: Seq<char>, little: bool)
    ensures
        subtitle_text(utf16_bytes(s, little)) == Some(s),
{
    let b = utf16_bytes(s, little);
    let u = utf16_units(s);
    assert(b[0] == (if little { 0xFFu8 } else { 0xFEu8 }));
    assert(b[1] == (if little { 0xFEu8 } else { 0xFFu8 }));
    assert(units(b, 2, little) =~= u) by {
        assert forall|i: int| 0 <= i < u.len() implies units(b, 2, little)[i] == u[i] by {
            let (x, y) = (b[2 + 2 * i], b[2 + 2 * i + 1]);
            let (lo, hi) = ((u[i] % 256) as u8, (u[i] / 256) as u8);
            assert((2 * i) / 2 == i && (2 * i + 1) / 2 == i);
            assert(x == (if little { lo } else { hi }));
            assert(y == (if little { hi } else { lo }));
            assert(hi * 256 + lo == u[i]);
        }
    }
    lemma_units_read_back(s);
}

/// Bytes that are neither marked UTF-16 nor UTF-8 are read as Windows-1252, a
/// character each, where no more than one in twenty is beyond ASCII; ASCII
/// bytes stand for themselves.
pub proof fn western_text_is_mostly_ascii(b: Seq<u8>)
    requires
        !marked_utf16(b),
        !valid_utf8(b),
    ensures
        subtitle_text(b) is Some <==> 20 * (b.len() - ascii_count(b)) <= b.len(),
        subtitle_text(b) is Some ==> subtitle_text(b)->Some_0.len() == b.len() && forall|i: int|
            0 <= i < b.len() && b[i] < 0x80 ==> #[trigger] subtitle_text(b)->Some_0[i] == b[i] as char,
{
}

/// Each byte counts as ASCII or not.
pub proof fn ascii_is_counted(b: Seq<u8>, x: u8)
    ensures
        ascii_count(seq![]) == 0,
        x <= 0x7F ==> ascii_count(b.push(x)) == ascii_count(b) + 1,
        x > 0x7F ==> ascii_count(b.push(x)) == ascii_count(b),
{
    assert(b.push(x).drop_last() =~= b);
}

} // verus!

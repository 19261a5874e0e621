//! Base 64, in the two forms that are in use: the URL-safe one without
//! padding, and the standard one with it.
use vstd::prelude::*;
use base64::Engine;
use vstd::string::*;
use crate::text;

verus! {

/// The character for six bits.
pub open spec fn symbol(n: int, url: bool) -> char {
    if n < 26 {
        (65 + n) as char
    } else if n < 52 {
        (71 + n) as char
    } else if n < 62 {
        (n - 4) as char
    } else if n == 62 {
        if url {
            '-'
        } else {
            '+'
        }
    } else {
        if url {
            '_'
        } else {
            '/'
        }
    }
}

/// Bytes in base 64, without padding: three bytes make four characters.
pub open spec fn base64_of(b: Seq<u8>, url: bool) -> Seq<char>
    decreases b.len(),
{
    if b.len() == 0 {
        seq![]
    } else if b.len() == 1 {
        seq![symbol(b[0] as int / 4, url), symbol((b[0] as int % 4) * 16, url)]
    } else if b.len() == 2 {
        seq![
            symbol(b[0] as int / 4, url),
            symbol((b[0] as int % 4) * 16 + b[1] as int / 16, url),
            symbol((b[1] as int % 16) * 4, url),
        ]
    } else {
        seq![
            symbol(b[0] as int / 4, url),
            symbol((b[0] as int % 4) * 16 + b[1] as int / 16, url),
            symbol((b[1] as int % 16) * 4 + b[2] as int / 64, url),
            symbol(b[2] as int % 64, url),
        ] + base64_of(b.skip(3), url)
    }
}

/// The padding that completes the last four characters.
pub open spec fn padding(bytes: nat) -> Seq<char> {
    if bytes % 3 == 1 {
        seq!['=', '=']
    } else if bytes % 3 == 2 {
        seq!['=']
    } else {
        seq![]
    }
}

/// `base64::Engine::encode` of the engine `URL_SAFE_NO_PAD`: the bytes in the
/// URL-safe alphabet, without padding.
#[verifier::external_body]
pub(crate) fn encode_url(bytes: &Vec<u8>) -> (r: String)
    ensures
        r@ == base64_of(bytes@, true),
{
    base64::engine::general_purpose::URL_SAFE_NO_PAD.encode(bytes)
}

/// `base64::Engine::decode` of the engine `URL_SAFE_NO_PAD`: the bytes of which
/// the text is the encoding, and nothing where it is not the encoding of any
/// (padding, foreign characters, bits left over).
#[verifier::external_body]
pub(crate) fn decode_url(text: &str) -> (r: Option<Vec<u8>>)
    ensures
        match r {
            Some(b) => base64_of(b@, true) == text@,
            None => forall|b: Seq<u8>| #[trigger] base64_of(b, true) != text@,
        },
{
    base64::engine::general_purpose::URL_SAFE_NO_PAD.decode(text.as_bytes()).ok()
}

/// `base64::Engine::encode` of the engine `STANDARD`: the bytes in the standard
/// alphabet, with padding.
#[verifier::external_body]
pub(crate) fn encode_standard(bytes: &Vec<u8>) -> (r: String)
    ensures
        r@ == base64_of(bytes@, false) + padding(bytes@.len()),
{
    base64::engine::general_purpose::STANDARD.encode(bytes)
}

proof fn lemma_symbol(a: int, b: int, url: bool)
    requires
        0 <= a < 64,
        0 <= b < 64,
        symbol(a, url) == symbol(b, url),
    ensures
        a == b,
{
}

proof fn lemma_len(b: Seq<u8>, url: bool)
    ensures
        base64_of(b, url).len() * 3 >= b.len() * 4,
        base64_of(b, url).len() * 3 < b.len() * 4 + 3,
    decreases b.len(),
{
    if b.len() >= 3 {
        lemma_len(b.skip(3), url);
    }
}

proof fn lemma_head(b: Seq<u8>, url: bool)
    requires
        b.len() > 0,
    ensures
        base64_of(b, url).len() >= 2,
        base64_of(b, url)[0] == symbol(b[0] as int / 4, url),
        b.len() >= 2 ==> base64_of(b, url)[1] == symbol(
            (b[0] as int % 4) * 16 + b[1] as int / 16,
            url,
        ),
        b.len() >= 3 ==> base64_of(b, url)[2] == symbol(
            (b[1] as int % 16) * 4 + b[2] as int / 64,
            url,
        ),
        b.len() >= 3 ==> base64_of(b, url)[3] == symbol(b[2] as int % 64, url),
{
}

/// No two byte sequences have one encoding.
pub proof fn encodings_are_distinct(a: Seq<u8>, b: Seq<u8>, url: bool)
    requires
        base64_of(a, url) == base64_of(b, url),
    ensures
        a == b,
    decreases a.len(),
{
    lemma_len(a, url);
    lemma_len(b, url);
    let x = base64_of(a, url);
    let y = base64_of(b, url);
    if a.len() == 0 {
        assert(a =~= b);
    } else {
        lemma_head(a, url);
        lemma_head(b, url);
        assert(x[0] == y[0] && x[1] == y[1]);
        lemma_symbol(a[0] as int / 4, b[0] as int / 4, url);
        if a.len() == 1 {
            assert(b.len() == 1);
            lemma_symbol((a[0] as int % 4) * 16, (b[0] as int % 4) * 16, url);
            assert(a[0] == b[0]);
            assert(a =~= b);
        } else if a.len() == 2 {
            assert(b.len() == 2);
            assert(x[2] == y[2]);
            lemma_symbol(
                (a[0] as int % 4) * 16 + a[1] as int / 16,
                (b[0] as int % 4) * 16 + b[1] as int / 16,
                url,
            );
            lemma_symbol((a[1] as int % 16) * 4, (b[1] as int % 16) * 4, url);
            assert(a[0] == b[0] && a[1] == b[1]);
            assert(a =~= b);
        } else {
            assert(b.len() >= 3);
            assert(x[2] == y[2] && x[3] == y[3]);
            lemma_symbol(
                (a[0] as int % 4) * 16 + a[1] as int / 16,
                (b[0] as int % 4) * 16 + b[1] as int / 16,
                url,
            );
            lemma_symbol(
                (a[1] as int % 16) * 4 + a[2] as int / 64,
                (b[1] as int % 16) * 4 + b[2] as int / 64,
                url,
            );
            lemma_symbol(a[2] as int % 64, b[2] as int % 64, url);
            assert(a[0] == b[0] && a[1] == b[1] && a[2] == b[2]);
            assert(x.skip(4) =~= base64_of(a.skip(3), url));
            assert(y.skip(4) =~= base64_of(b.skip(3), url));
            encodings_are_distinct(a.skip(3), b.skip(3), url);
            assert(a =~= a.take(3) + a.skip(3));
            assert(b =~= b.take(3) + b.skip(3));
            assert(a.take(3) =~= b.take(3));
        }
    }
}

/// Whether a character is of the URL-safe alphabet.
pub open spec fn url_safe(c: char) -> bool {
    ||| 'A' as int <= c as int <= 'Z' as int
    ||| 'a' as int <= c as int <= 'z' as int
    ||| '0' as int <= c as int <= '9' as int
    ||| c == '-'
    ||| c == '_'
}

/// An encoding is made of URL-safe characters.
pub proof fn encodings_are_safe(b: Seq<u8>)
    ensures
        forall|i: int|
            0 <= i < base64_of(b, true).len() ==> url_safe(#[trigger] base64_of(b, true)[i]),
    decreases b.len(),
{
    let s = base64_of(b, true);
    if b.len() >= 3 {
        encodings_are_safe(b.skip(3));
        let rest = base64_of(b.skip(3), true);
        assert forall|i: int| 0 <= i < s.len() implies url_safe(#[trigger] s[i]) by {
            if i >= 4 {
                assert(s[i] == rest[i - 4]);
            }
        }
    }
}

/// A text in URL-safe base 64.
pub open spec fn encoded(s: Seq<char>) -> Seq<char> {
    base64_of(vstd::utf8::encode_utf8(s), true)
}

/// The text of which another one is the encoding.
pub open spec fn decoded(s: Seq<char>) -> Option<Seq<char>> {
    if exists|t: Seq<char>| #[trigger] encoded(t) == s {
        Some(choose|t: Seq<char>| #[trigger] encoded(t) == s)
    } else {
        None
    }
}

/// Decoding gives back what was encoded.
pub proof fn decoding_undoes_encoding(t: Seq<char>)
    ensures
        decoded(encoded(t)) == Some(t),
{
    let u = choose|u: Seq<char>| #[trigger] encoded(u) == encoded(t);
    assert(encoded(t) == encoded(t));
    encodings_are_distinct(vstd::utf8::encode_utf8(t), vstd::utf8::encode_utf8(u), true);
    vstd::utf8::encode_utf8_decode_utf8(t);
    vstd::utf8::encode_utf8_decode_utf8(u);
}

pub fn enc(s: &str) -> (r: String)
    ensures
        r@ == encoded(s@),
{
    let bytes = s.as_bytes_vec();
    encode_url(&bytes)
}

pub fn dec(s: &str) -> (r: Option<String>)
    ensures
        text::opt_text(r) == decoded(s@),
{
    match decode_url(s) {
        Some(bytes) => {
            let r = text::from_utf8(&bytes);
            proof {
                match &r {
                    Some(t) => {
                        vstd::utf8::decode_utf8_encode_utf8(bytes@);
                        assert(encoded(t@) == s@);
                        decoding_undoes_encoding(t@);
                    },
                    None => {
                        assert forall|t: Seq<char>| #[trigger] encoded(t) != s@ by {
                            if encoded(t) == s@ {
                                encodings_are_distinct(vstd::utf8::encode_utf8(t), bytes@, true);
                                vstd::utf8::encode_utf8_valid_utf8(t);
                            }
                        }
                    },
                }
            }
            r
        },
        None => {
            assert forall|t: Seq<char>| #[trigger] encoded(t) != s@ by {
                assert(base64_of(vstd::utf8::encode_utf8(t), true) != s@);
            }
            None
        },
    }
}

} // verus!

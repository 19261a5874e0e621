//! SHA-256, and bytes written in hexadecimal.
use vstd::prelude::*;
use vstd::string::*;

verus! {

/// What ring's SHA-256 digest of these bytes is.
pub uninterp spec fn sha256(bytes: Seq<u8>) -> Seq<u8>;

/// The longest text, in bytes, that SHA-256 counts the bits of.
pub open spec fn digestible(text: Seq<char>) -> bool {
    8 * vstd::utf8::encode_utf8(text).len() <= u64::MAX
}

/// `ring::digest::digest` with `SHA256`, on the UTF-8 bytes of a text: a
/// function of the bytes alone, and 32 bytes long. It panics on more bytes
/// than SHA-256 counts.
#[verifier::external_body]
pub(crate) fn digest_text(text: &str) -> (r: Vec<u8>)
    requires
        digestible(text@),
    ensures
        r@ == sha256(vstd::utf8::encode_utf8(text@)),
        r@.len() == 32,
{
    ring::digest::digest(&ring::digest::SHA256, text.as_bytes()).as_ref().to_vec()
}

/// Whether a text is short enough for SHA-256.
pub fn is_digestible(text: &str) -> (r: bool)
    ensures
        r == digestible(text@),
{
    text.as_bytes_vec().len() as u128 * 8 <= u64::MAX as u128
}

/// A hexadecimal digit, in lower case.
pub open spec fn hex_char(d: int) -> char {
    if d < 10 {
        (48 + d) as char
    } else {
        (87 + d) as char
    }
}

/// Two digits for each byte.
pub open spec fn hex_of(bytes: Seq<u8>) -> Seq<char>
    decreases bytes.len(),
{
    if bytes.len() == 0 {
        seq![]
    } else {
        hex_of(bytes.drop_last()).push(hex_char(bytes.last() as int / 16)).push(
            hex_char(bytes.last() as int % 16),
        )
    }
}

/// A hexadecimal digit, in lower case.
pub fn write_digit(d: u8) -> (r: char)
    requires
        d < 16,
    ensures
        r == hex_char(d as int),
{
    if d < 10 {
        (48 + d) as char
    } else {
        (87 + d) as char
    }
}

pub fn hex(bytes: &Vec<u8>) -> (r: String)
    ensures
        r@ == hex_of(bytes@),
{
    let mut out = String::new();
    let mut i: usize = 0;
    assert(bytes@.take(0) =~= seq![]);
    assert(out@ =~= seq![]);
    while i < bytes.len()
        invariant
            i <= bytes.len(),
            out@ == hex_of(bytes@.take(i as int)),
        decreases bytes.len() - i,
    {
        assert(bytes@.take(i + 1).drop_last() =~= bytes@.take(i as int));
        out.push(write_digit(bytes[i] / 16));
        out.push(write_digit(bytes[i] % 16));
        i += 1;
    }
    assert(bytes@.take(i as int) =~= bytes@);
    out
}

/// Two digits for each byte, all of them digits.
pub proof fn lemma_hex(bytes: Seq<u8>)
    ensures
        hex_of(bytes).len() == 2 * bytes.len(),
        forall|i: int|
            0 <= i < hex_of(bytes).len() ==> crate::db::captions::hex_digit(
                #[trigger] hex_of(bytes)[i],
            ),
    decreases bytes.len(),
{
    if bytes.len() > 0 {
        lemma_hex(bytes.drop_last());
    }
}

} // verus!

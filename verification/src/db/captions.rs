//! Provenance of an embedded caption track. When a `.srt` sidecar is muxed
//! into an MP4, the SHA-256 of the embedded text is recorded in the
//! container's ©too ("encoding tool") atom — the one atom that is meant to
//! name the tool that wrote the file, which no player displays as content. A
//! later enrichment compares the sidecar against the recorded hash and
//! re-embeds when they differ, so a corrected sidecar flows into the file.
//! Anything that remuxes the file without the key replaces the atom with its
//! own name, and the captions are then of unknown provenance — never
//! replaced.
use vstd::prelude::*;
use crate::text;

verus! {

/// What the tag looks like before the 64 hex digits.
pub const TAG_PREFIX: &'static str = "media-enrich; captions=srt:sha256:";

/// The ©too text for captions embedded from a sidecar with this hash.
pub fn tag(sha256_hex: &str) -> (r: String)
    ensures
        r@ == TAG_PREFIX@ + sha256_hex@,
{
    let mut out = TAG_PREFIX.to_owned();
    out.push_str(sha256_hex);
    out
}

pub open spec fn hex_digit(c: char) -> bool {
    ('0' as int <= c as int <= '9' as int) || ('a' as int <= c as int <= 'f' as int) || ('A' as int
        <= c as int <= 'F' as int)
}

/// The length of the longest prefix without white space or a semicolon.
pub open spec fn field_len(s: Seq<char>) -> int
    decreases s.len(),
{
    if s.len() == 0 || text::white(s[0]) || s[0] == ';' {
        0
    } else {
        1 + field_len(s.drop_first())
    }
}

/// The hash that a tag records: after the prefix, exactly 64 hex digits up
/// to white space, a semicolon or the end.
pub open spec fn recorded(tag: Seq<char>) -> Option<Seq<char>> {
    let t = text::trimmed(tag);
    if !text::begins(t, TAG_PREFIX@) {
        None
    } else {
        let rest = t.skip(TAG_PREFIX@.len() as int);
        let hex = rest.take(field_len(rest));
        if hex.len() == 64 && forall|i: int| 0 <= i < hex.len() ==> hex_digit(#[trigger] hex[i]) {
            Some(hex)
        } else {
            None
        }
    }
}

/// The recorded sidecar hash, if the tag is one of ours.
pub fn recorded_hash(encoder_tag: &str) -> (r: Option<String>)
    ensures
        text::opt_text(r) == recorded(encoder_tag@),
{
    let t = text::trim(encoder_tag);
    let rest = match text::strip_prefix(t.as_str(), TAG_PREFIX) {
        None => {
            return None;
        },
        Some(rest) => rest,
    };
    let v = text::chars_of(rest.as_str());
    let mut n: usize = 0;
    assert(v@.skip(0) =~= v@);
    while n < v.len() && !text::is_white(v[n]) && v[n] != ';'
        invariant
            n <= v.len(),
            field_len(v@) == n + field_len(v@.skip(n as int)),
        decreases v.len() - n,
    {
        assert(v@.skip(n as int).drop_first() =~= v@.skip(n + 1));
        n += 1;
    }
    assert(field_len(v@) == n);
    let ghost hex = v@.take(n as int);
    if n != 64 {
        return None;
    }
    let mut i: usize = 0;
    while i < n
        invariant
            i <= n <= v.len(),
            n == 64,
            hex == v@.take(n as int),
            recorded(encoder_tag@) is Some ==> recorded(encoder_tag@) == Some(hex),
            recorded(encoder_tag@) is Some ==> forall|k: int|
                0 <= k < hex.len() ==> hex_digit(#[trigger] hex[k]),
            forall|k: int| 0 <= k < i ==> hex_digit(#[trigger] hex[k]),
        decreases n - i,
    {
        let u: u32 = text::code(v[i]);
        assert(hex[i as int] == v@[i as int]);
        if !((48 <= u && u <= 57) || (97 <= u && u <= 102) || (65 <= u && u <= 70)) {
            assert(!hex_digit(hex[i as int]));
            return None;
        }
        i += 1;
    }
    let r = text::string_of(&v, 0, n);
    assert(r@ =~= hex);
    Some(r)
}

/// A hash that was put into a tag is read back from it, also where the tag has
/// something behind it, set off by a semicolon or white space.
pub proof fn tag_round_trip(hex: Seq<char>, tail: Seq<char>)
    requires
        hex.len() == 64,
        forall|i: int| 0 <= i < hex.len() ==> hex_digit(#[trigger] hex[i]),
        tail.len() > 0 ==> tail[0] == ';' || text::white(tail[0]),
    ensures
        recorded(TAG_PREFIX@ + hex + tail) == Some(hex),
{
    let whole = TAG_PREFIX@ + hex;
    let n = TAG_PREFIX@.len() as int;
    reveal_strlit("media-enrich; captions=srt:sha256:");
    assert(whole[0] == 'm');
    assert(whole.last() == hex[63]);
    assert(hex_digit(hex[63]));
    assert((whole + tail)[0] == 'm');
    assert(text::trim_start_of(whole + tail) == whole + tail);
    let k = lemma_trim_end_behind(whole, tail);
    let t = whole + tail.take(k);
    assert(t.subrange(0, n) =~= TAG_PREFIX@);
    let rest = t.skip(n);
    assert(rest =~= hex + tail.take(k));
    lemma_hex_field(hex, tail.take(k));
    assert(rest.take(64) =~= hex);
}

/// Trimming a text that something is behind leaves the text.
proof fn lemma_trim_end_behind(s: Seq<char>, tail: Seq<char>) -> (k: int)
    requires
        s.len() > 0,
        !text::white(s.last()),
    ensures
        0 <= k <= tail.len(),
        text::trim_end_of(s + tail) == s + tail.take(k),
    decreases tail.len(),
{
    let all = s + tail;
    if tail.len() == 0 {
        assert(all =~= s);
        assert(s + tail.take(0) =~= s);
        0
    } else if text::white(tail.last()) {
        let k = lemma_trim_end_behind(s, tail.drop_last());
        assert(all.last() == tail.last());
        assert(all.drop_last() =~= s + tail.drop_last());
        assert(tail.drop_last().take(k) =~= tail.take(k));
        k
    } else {
        assert(all.last() == tail.last());
        assert(tail.take(tail.len() as int) =~= tail);
        tail.len() as int
    }
}

proof fn lemma_hex_field(s: Seq<char>, tail: Seq<char>)
    requires
        forall|i: int| 0 <= i < s.len() ==> hex_digit(#[trigger] s[i]),
        tail.len() > 0 ==> tail[0] == ';' || text::white(tail[0]),
    ensures
        field_len(s + tail) == s.len(),
    decreases s.len(),
{
    if s.len() > 0 {
        assert(hex_digit(s[0]));
        assert forall|i: int| 0 <= i < s.drop_first().len() implies hex_digit(
            #[trigger] s.drop_first()[i],
        ) by {
            assert(s.drop_first()[i] == s[i + 1]);
        }
        lemma_hex_field(s.drop_first(), tail);
        assert((s + tail).drop_first() =~= s.drop_first() + tail);
    } else {
        assert(s + tail =~= tail);
    }
}

} // verus!

//! Skippable segments and the detector's fingerprints in the catalog.
use vstd::prelude::*;
use crate::text;

verus! {

/// One episode file as the audio detector sees it: identity, where it
/// lives, and its cached fingerprints when they are current.
#[derive(Debug)]
pub struct AnalysisFile {
    pub file_id: i64,
    pub abs_path: String,
    pub size: i64,
    pub mtime: i64,
    pub episode: i64,
    pub duration_ms: Option<i64>,
    /// Some when a current fingerprint row exists (possibly empty prints,
    /// meaning the audio was undecodable).
    pub prints: Option<(Vec<u32>, Vec<u32>)>,
}

/// What is to be done with the stored segments of a file.
#[derive(Debug, Clone, Copy, PartialEq, Eq, Structural)]
pub enum Replacement {
    /// Delete what deliberate sources stored; leave the detector's.
    ClearDeliberate,
    /// Delete everything and store the new segments.
    ReplaceAll,
}

/// How a source's segments replace the stored ones. A deliberate source with
/// nothing to say leaves the detector's rows alone: extraction re-runs for
/// reasons unrelated to segments, and wiped detector segments would never be
/// re-derived. Deliberate rows still take the file over when present.
pub fn replace_for_file(source: &str, is_empty: bool) -> (r: Replacement)
    ensures
        r == Replacement::ClearDeliberate <==> is_empty && source@ != "audio"@,
{
    if is_empty && !text::same(source, "audio") {
        Replacement::ClearDeliberate
    } else {
        Replacement::ReplaceAll
    }
}

/// The number that four bytes hold, lowest first.
pub open spec fn little_endian(a: u8, b: u8, c: u8, d: u8) -> int {
    a + 256 * b + 65536 * c + 16777216 * d
}

/// The numbers that bytes hold, four bytes each; what is left over at the
/// end holds none.
pub open spec fn print_of(blob: Seq<u8>) -> Seq<u32> {
    Seq::new(
        blob.len() / 4,
        |i: int|
            little_endian(blob[4 * i], blob[4 * i + 1], blob[4 * i + 2], blob[4 * i + 3]) as u32,
    )
}

/// Numbers as bytes, four each, lowest first.
pub open spec fn blob_of(print: Seq<u32>) -> Seq<u8> {
    Seq::new(
        4 * print.len(),
        |i: int|
            {
                let v = print[i / 4];
                if i % 4 == 0 {
                    (v % 256) as u8
                } else if i % 4 == 1 {
                    (v / 256 % 256) as u8
                } else if i % 4 == 2 {
                    (v / 65536 % 256) as u8
                } else {
                    (v / 16777216) as u8
                }
            },
    )
}

pub fn decode_print(blob: &Vec<u8>) -> (r: Vec<u32>)
    ensures
        r@ == print_of(blob@),
{
    let n = blob.len() / 4;
    let mut out: Vec<u32> = Vec::new();
    let mut i: usize = 0;
    while i < n
        invariant
            n == blob.len() / 4,
            i <= n,
            out@ == print_of(blob@).take(i as int),
        decreases n - i,
    {
        let at = 4 * i;
        let v: u32 = blob[at] as u32 + 256 * (blob[at + 1] as u32) + 65536 * (blob[at + 2] as u32)
            + 16777216 * (blob[at + 3] as u32);
        proof {
            let p = print_of(blob@);
            assert(p[i as int] == v);
            assert(p.take(i + 1) =~= p.take(i as int).push(v));
        }
        out.push(v);
        i += 1;
    }
    assert(print_of(blob@).take(n as int) =~= print_of(blob@));
    out
}

pub fn encode_print(print: &Vec<u32>) -> (r: Vec<u8>)
    ensures
        r@ == blob_of(print@),
{
    let mut out: Vec<u8> = Vec::new();
    let mut i: usize = 0;
    while i < print.len()
        invariant
            i <= print.len(),
            out@ == blob_of(print@).take(4 * i),
        decreases print.len() - i,
    {
        let v = print[i];
        let ghost b = blob_of(print@);
        let ghost before = out@;
        out.push((v % 256) as u8);
        out.push((v / 256 % 256) as u8);
        out.push((v / 65536 % 256) as u8);
        out.push((v / 16777216) as u8);
        proof {
            assert(b[4 * i] == (v % 256) as u8);
            assert(b[4 * i + 1] == (v / 256 % 256) as u8);
            assert(b[4 * i + 2] == (v / 65536 % 256) as u8);
            assert(b[4 * i + 3] == (v / 16777216) as u8);
            assert(out@ =~= b.take(4 * (i + 1)));
        }
        i += 1;
    }
    assert(blob_of(print@).take(4 * i) =~= blob_of(print@));
    out
}

/// Fingerprints come back from the catalog as they were stored.
pub proof fn print_round_trip(print: Seq<u32>)
    ensures
        print_of(blob_of(print)) == print,
{
    let b = blob_of(print);
    assert(b.len() == 4 * print.len());
    assert(print_of(b).len() == print.len());
    assert forall|i: int| 0 <= i < print.len() implies print_of(b)[i] == print[i] by {
        let v: u32 = print[i];
        assert(b[4 * i] == (v % 256) as u8);
        assert(b[4 * i + 1] == (v / 256 % 256) as u8);
        assert(b[4 * i + 2] == (v / 65536 % 256) as u8);
        assert(b[4 * i + 3] == (v / 16777216) as u8);
        lemma_bytes(v);
    }
    assert(print_of(b) =~= print);
}

proof fn lemma_bytes(v: u32)
    ensures
        little_endian(
            (v % 256) as u8,
            (v / 256 % 256) as u8,
            (v / 65536 % 256) as u8,
            (v / 16777216) as u8,
        ) == v,
{
    assert(v / 65536 == (v / 256) / 256);
    assert(v / 16777216 == (v / 65536) / 256);
}

} // verus!

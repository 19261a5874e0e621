//! Automatic intro/credits detection for TV seasons ("layer 3"): every
//! episode of a season shares nearly identical intro and credits audio,
//! so chromaprint fingerprints of each episode's head and tail windows
//! are cross-matched pairwise and the stretches episodes have in common
//! become intro/credits segments (source 'audio'). Chapter- or
//! edl-sourced segments always win over detection.
//!
//! Fingerprints are cached in segment_prints keyed to size+mtime, so a
//! new episode decodes only itself and is matched against its siblings'
//! cached prints. A season is analyzed when any ready episode lacks a
//! current print row; storing the row (even with empty prints, for
//! undecodable audio) is what marks the work done.
//!
//! Everything here counts in fingerprint items; how long an item lasts, and
//! what the limits in seconds come to, is the caller's.
use vstd::prelude::*;
use crate::db::models::{Segment, SegmentKind};
use crate::order;
use crate::text;

verus! {

/// Bump to invalidate every cached fingerprint (decode parameters or
/// matching constants changed incompatibly).
pub const PRINT_VERSION: i64 = 1;

/// Audio windows: intros live in the first ten minutes, credits in the
/// last five.
pub const HEAD_SECS: u32 = 600;

pub const TAIL_SECS: u32 = 300;

pub const SAMPLE_RATE: u32 = 11025;

/// Matcher acceptance. Chromaprint items whose hamming distance is at
/// most MAX_BITS (of 32) count as matching; candidate alignments come from
/// voting on 12-bit item prefixes (only offsets with at least MIN_VOTES, best
/// TOP_OFFSETS evaluated) — intro and credits usually sit at different
/// relative offsets, which is why a single best global alignment is not
/// enough.
pub const MAX_BITS: u32 = 8;

pub const MIN_VOTES: usize = 10;

pub const TOP_OFFSETS: usize = 8;

/// Prefixes that an item can have.
pub const PREFIXES: usize = 4096;

/// What counts as a shared stretch. Runs may bridge gaps up to `gap_items`
/// on the same alignment (encoder jitter, an episode-specific overlay) but
/// must stay well matched overall; and a final run must be at least
/// `min_items` but no more than most of the window — a near-total match means
/// duplicate content (two renditions mislabeled as different episodes), not
/// an intro.
#[derive(Debug)]
pub struct Limits {
    pub gap_items: usize,
    pub min_items: usize,
    /// How many items of a run must match, by its length.
    pub least_matched: Vec<usize>,
    /// How long a run may be, by the length of the shorter window.
    pub longest: Vec<usize>,
}

impl Limits {
    /// The limits cover windows of up to `n` items.
    pub open spec fn cover(&self, n: int) -> bool {
        n < self.least_matched@.len() && n < self.longest@.len()
    }
}

/// A shared stretch: items `start..start + len` of one print against
/// `start - offset..` of another.
#[derive(Debug, Clone, Copy, PartialEq, Eq, Structural)]
pub struct Run {
    pub start: usize,
    pub len: usize,
    pub offset: isize,
}

/// A print can be held in memory.
pub open spec fn held(print: Seq<u32>) -> bool {
    4 * print.len() <= isize::MAX
}

// ------------------------------------------------------------------ items

/// The number of ones among the bits.
pub open spec fn ones(x: u32) -> nat
    decreases x,
{
    if x == 0 {
        0
    } else {
        (x % 2) as nat + ones(x / 2)
    }
}

proof fn lemma_ones(x: u32)
    ensures
        ones(x) <= x,
    decreases x,
{
    if x > 0 {
        lemma_ones(x / 2);
    }
}

pub fn count_ones(x: u32) -> (r: u32)
    ensures
        r == ones(x),
{
    let mut rest: u32 = x;
    let mut n: u32 = 0;
    while rest != 0
        invariant
            n + ones(rest) == ones(x),
        decreases rest,
    {
        proof {
            lemma_ones(x);
        }
        n += rest % 2;
        rest = rest / 2;
    }
    n
}

pub open spec fn alike(x: u32, y: u32) -> bool {
    ones(x ^ y) <= MAX_BITS
}

pub open spec fn prefix(x: u32) -> u32 {
    x >> 20u32
}

fn prefix_of(x: u32) -> (r: usize)
    ensures
        r == prefix(x),
        r < PREFIXES,
{
    assert(x >> 20u32 < 4096) by (bit_vector);
    (x >> 20u32) as usize
}

// ------------------------------------------------------------------ voting

/// The positions among the first `n` with this prefix, in order.
pub open spec fn positions(a: Seq<u32>, p: u32, n: int) -> Seq<usize>
    decreases n,
{
    if n <= 0 {
        seq![]
    } else if prefix(a[n - 1]) == p {
        positions(a, p, n - 1).push((n - 1) as usize)
    } else {
        positions(a, p, n - 1)
    }
}

proof fn lemma_positions(a: Seq<u32>, p: u32, n: int)
    requires
        0 <= n <= a.len() <= usize::MAX,
    ensures
        positions(a, p, n).len() <= n,
        forall|k: int|
            0 <= k < positions(a, p, n).len() ==> 0 <= (#[trigger] positions(a, p, n)[k]) < n
                && prefix(a[positions(a, p, n)[k] as int]) == p,
        forall|k: int, m: int|
            0 <= k < m < positions(a, p, n).len() ==> positions(a, p, n)[k] < positions(a, p, n)[m],
        forall|i: int|
            0 <= i < n && prefix(#[trigger] a[i]) == p ==> positions(a, p, n).contains(i as usize),
    decreases n,
{
    if n > 0 {
        lemma_positions(a, p, n - 1);
        let before = positions(a, p, n - 1);
        let now = positions(a, p, n);
        assert forall|i: int| 0 <= i < n && prefix(#[trigger] a[i]) == p implies now.contains(
            i as usize,
        ) by {
            if i == n - 1 {
                assert(now[before.len() as int] == i);
            } else {
                let k = choose|k: int| 0 <= k < before.len() && before[k] == i as usize;
                assert(now[k] == i as usize);
            }
        }
    }
}

/// Hashes carried by a large share of items (silence, station idents)
/// vote for every alignment at once, i.e. for none.
pub open spec fn cap(a: Seq<u32>) -> int {
    if a.len() / 32 > 4 {
        (a.len() / 32) as int
    } else {
        4
    }
}

/// Whether item `j` of `b` votes for the alignment that puts it against item
/// `j + offset` of `a`.
pub open spec fn votes_for(a: Seq<u32>, b: Seq<u32>, offset: int, j: int) -> bool {
    &&& 0 <= j + offset < a.len()
    &&& prefix(a[j + offset]) == prefix(b[j])
    &&& positions(a, prefix(b[j]), a.len() as int).len() <= cap(a)
}

/// The votes of the first `n` items of `b`.
pub open spec fn votes(a: Seq<u32>, b: Seq<u32>, offset: int, n: int) -> int
    decreases n,
{
    if n <= 0 {
        0
    } else {
        votes(a, b, offset, n - 1) + if votes_for(a, b, offset, n - 1) {
            1int
        } else {
            0int
        }
    }
}

proof fn lemma_votes(a: Seq<u32>, b: Seq<u32>, offset: int, n: int)
    ensures
        0 <= votes(a, b, offset, n) <= (if n < 0 {
            0
        } else {
            n
        }),
    decreases n,
{
    if n > 0 {
        lemma_votes(a, b, offset, n - 1);
    }
}

/// The votes for each alignment; the one at place `k` has offset
/// `k - b.len()`.
pub open spec fn tally(a: Seq<u32>, b: Seq<u32>) -> Seq<usize> {
    Seq::new(
        a.len() + b.len(),
        |k: int| votes(a, b, k - b.len(), b.len() as int) as usize,
    )
}

/// The positions of the items by their prefix.
fn index_prefixes(a: &Vec<u32>) -> (r: Vec<Vec<usize>>)
    ensures
        r@.len() == PREFIXES,
        forall|p: int|
            0 <= p < PREFIXES ==> (#[trigger] r@[p])@ == positions(a@, p as u32, a@.len() as int),
{
    let mut out: Vec<Vec<usize>> = Vec::new();
    let mut p: usize = 0;
    while p < PREFIXES
        invariant
            p <= PREFIXES,
            out@.len() == p,
            forall|q: int| 0 <= q < p ==> (#[trigger] out@[q])@ == Seq::<usize>::empty(),
        decreases PREFIXES - p,
    {
        out.push(Vec::new());
        p += 1;
    }
    let mut i: usize = 0;
    while i < a.len()
        invariant
            i <= a.len(),
            out@.len() == PREFIXES,
            forall|q: int|
                0 <= q < PREFIXES ==> (#[trigger] out@[q])@ == positions(a@, q as u32, i as int),
        decreases a.len() - i,
    {
        let p = prefix_of(a[i]);
        let ghost before = out@;
        out[p].push(i);
        assert forall|q: int| 0 <= q < PREFIXES implies (#[trigger] out@[q])@ == positions(
            a@,
            q as u32,
            i + 1,
        ) by {
            if q == p {
                assert(out@[q]@ == before[q]@.push(i));
            } else {
                assert(out@[q] == before[q]);
            }
        }
        i += 1;
    }
    out
}

/// One item's votes: for each position of `a` with its prefix, the alignment
/// of the two.
fn cast_votes(
    a: &Vec<u32>,
    b: &Vec<u32>,
    found: &Vec<usize>,
    j: usize,
    tallied: &mut Vec<usize>,
)
    requires
        held(a@),
        held(b@),
        j < b@.len(),
        found@ == positions(a@, prefix(b@[j as int]), a@.len() as int),
        found@.len() <= cap(a@),
        old(tallied)@.len() == a@.len() + b@.len(),
        forall|k: int|
            0 <= k < old(tallied)@.len() ==> (#[trigger] old(tallied)@[k]) == votes(
                a@,
                b@,
                k - b@.len(),
                j as int,
            ),
    ensures
        final(tallied)@.len() == a@.len() + b@.len(),
        forall|k: int|
            0 <= k < final(tallied)@.len() ==> (#[trigger] final(tallied)@[k]) == votes(
                a@,
                b@,
                k - b@.len(),
                j + 1,
            ),
{
    let ghost first = tallied@;
    let ghost nb: int = b@.len() as int;
    let p = b[j];
    proof {
        lemma_positions(a@, prefix(p), a@.len() as int);
    }
    let mut m: usize = 0;
    while m < found.len()
        invariant
            m <= found.len(),
            held(a@),
            held(b@),
            j < b@.len(),
            nb == b@.len(),
            first.len() == a@.len() + b@.len(),
            tallied@.len() == a@.len() + b@.len(),
            forall|k: int| 0 <= k < found@.len() ==> (#[trigger] found@[k]) < a@.len(),
            forall|k: int, n: int| 0 <= k < n < found@.len() ==> found@[k] < found@[n],
            forall|k: int|
                0 <= k < first.len() ==> (#[trigger] first[k]) == votes(a@, b@, k - nb, j as int),
            forall|k: int|
                0 <= k < tallied@.len() ==> (#[trigger] tallied@[k]) == first[k] + (if exists|n: int|
                    0 <= n < m && found@[n] + nb - j == k {
                    1int
                } else {
                    0int
                }),
        decreases found.len() - m,
    {
        let at: usize = found[m] + (b.len() - j);
        let ghost before = tallied@;
        assert(found@[m as int] < a@.len());
        proof {
            lemma_votes(a@, b@, at - nb, j as int);
            assert(first[at as int] == votes(a@, b@, at - nb, j as int));
            assert(forall|n: int| 0 <= n < m ==> found@[n] < found@[m as int]);
            assert(before[at as int] == first[at as int]);
        }
        let now: usize = tallied[at] + 1;
        tallied.set(at, now);
        assert forall|k: int| 0 <= k < tallied@.len() implies (#[trigger] tallied@[k]) == first[k] + (
        if exists|n: int| 0 <= n < m + 1 && found@[n] + nb - j == k {
            1int
        } else {
            0int
        }) by {
            if k == at {
                assert(found@[m as int] + nb - j == k);
            } else {
                assert(tallied@[k] == before[k]);
                if exists|n: int| 0 <= n < m + 1 && found@[n] + nb - j == k {
                    let n = choose|n: int| 0 <= n < m + 1 && found@[n] + nb - j == k;
                    assert(n < m);
                    assert(found@[n] + nb - j == k);
                } else if exists|n: int| 0 <= n < m && found@[n] + nb - j == k {
                    let n = choose|n: int| 0 <= n < m && found@[n] + nb - j == k;
                    assert(found@[n] + nb - j == k);
                }
            }
        }
        m += 1;
    }
    assert forall|k: int| 0 <= k < tallied@.len() implies (#[trigger] tallied@[k]) == votes(
        a@,
        b@,
        k - nb,
        j + 1,
    ) by {
        let i = j + (k - nb);
        assert(first[k] == votes(a@, b@, k - nb, j as int));
        if votes_for(a@, b@, k - nb, j as int) {
            assert(prefix(a@[i]) == prefix(p));
            assert(found@.contains(i as usize));
            let n = choose|n: int| 0 <= n < found@.len() && found@[n] == i as usize;
            assert(found@[n] + nb - j == k);
        } else if exists|n: int| 0 <= n < m && found@[n] + nb - j == k {
            let n = choose|n: int| 0 <= n < m && found@[n] + nb - j == k;
            assert(found@[n] == i);
            assert(prefix(a@[found@[n] as int]) == prefix(p));
        }
    }
}

fn tally_votes(a: &Vec<u32>, b: &Vec<u32>) -> (r: Vec<usize>)
    requires
        held(a@),
        held(b@),
    ensures
        r@ == tally(a@, b@),
{
    let index = index_prefixes(a);
    let most: usize = if a.len() / 32 > 4 {
        a.len() / 32
    } else {
        4
    };
    let total: usize = a.len() + b.len();
    let mut out: Vec<usize> = Vec::new();
    let mut k: usize = 0;
    while k < total
        invariant
            k <= total,
            out@.len() == k,
            forall|q: int| 0 <= q < k ==> (#[trigger] out@[q]) == 0,
        decreases total - k,
    {
        out.push(0);
        k += 1;
    }
    let mut j: usize = 0;
    while j < b.len()
        invariant
            j <= b.len(),
            held(a@),
            held(b@),
            most == cap(a@),
            total == a@.len() + b@.len(),
            out@.len() == total,
            index@.len() == PREFIXES,
            forall|p: int|
                0 <= p < PREFIXES ==> (#[trigger] index@[p])@ == positions(
                    a@,
                    p as u32,
                    a@.len() as int,
                ),
            forall|q: int|
                0 <= q < out@.len() ==> (#[trigger] out@[q]) == votes(
                    a@,
                    b@,
                    q - b@.len(),
                    j as int,
                ),
        decreases b.len() - j,
    {
        let p = prefix_of(b[j]);
        assert(index@[p as int]@ == positions(a@, prefix(b@[j as int]), a@.len() as int));
        if index[p].len() <= most {
            cast_votes(a, b, &index[p], j, &mut out);
        }
        j += 1;
    }
    assert(out@ =~= tally(a@, b@)) by {
        assert forall|q: int| 0 <= q < out@.len() implies (#[trigger] out@[q]) == tally(
            a@,
            b@,
        )[q] by {
            lemma_votes(a@, b@, q - b@.len(), b@.len() as int);
        }
    }
    out
}

/// The first of the `n` places with the most votes.
pub open spec fn best(tally: Seq<usize>, n: int) -> int
    decreases n,
{
    if n <= 1 {
        0
    } else {
        let m = best(tally, n - 1);
        if tally[n - 1] > tally[m] {
            n - 1
        } else {
            m
        }
    }
}

proof fn lemma_best(tally: Seq<usize>, n: int)
    requires
        1 <= n <= tally.len(),
    ensures
        0 <= best(tally, n) < n,
        forall|k: int| 0 <= k < n ==> (#[trigger] tally[k]) <= tally[best(tally, n)],
    decreases n,
{
    if n > 1 {
        lemma_best(tally, n - 1);
    }
}

/// The places with the most votes, at most `n` of them and none with too few;
/// of equal votes the first counts.
pub open spec fn top(tally: Seq<usize>, n: nat) -> Seq<int>
    decreases n,
{
    let m = best(tally, tally.len() as int);
    if n == 0 || tally.len() == 0 || tally[m] < MIN_VOTES {
        seq![]
    } else {
        seq![m] + top(tally.update(m, 0), (n - 1) as nat)
    }
}

fn best_place(tally: &Vec<usize>) -> (r: usize)
    requires
        tally@.len() > 0,
    ensures
        r == best(tally@, tally@.len() as int),
        r < tally@.len(),
{
    let mut m: usize = 0;
    let mut k: usize = 1;
    while k < tally.len()
        invariant
            1 <= k <= tally.len(),
            m < k,
            m == best(tally@, k as int),
        decreases tally.len() - k,
    {
        if tally[k] > tally[m] {
            m = k;
        }
        k += 1;
    }
    m
}

/// Candidate alignments, most votes first.
pub open spec fn alignments(a: Seq<u32>, b: Seq<u32>) -> Seq<int> {
    let places = top(tally(a, b), TOP_OFFSETS as nat);
    Seq::new(places.len(), |i: int| places[i] - b.len())
}

proof fn lemma_top(tally: Seq<usize>, n: nat)
    ensures
        top(tally, n).len() <= n,
        forall|i: int| 0 <= i < top(tally, n).len() ==> 0 <= (#[trigger] top(tally, n)[i]) < tally.len(),
    decreases n,
{
    if n > 0 && tally.len() > 0 {
        lemma_best(tally, tally.len() as int);
        let m = best(tally, tally.len() as int);
        if tally[m] >= MIN_VOTES {
            lemma_top(tally.update(m, 0), (n - 1) as nat);
        }
    }
}

fn best_alignments(a: &Vec<u32>, b: &Vec<u32>) -> (r: Vec<isize>)
    requires
        held(a@),
        held(b@),
    ensures
        r@.len() == alignments(a@, b@).len(),
        forall|i: int| 0 <= i < r@.len() ==> (#[trigger] r@[i]) == alignments(a@, b@)[i],
        forall|i: int|
            0 <= i < r@.len() ==> -b@.len() <= (#[trigger] r@[i]) < a@.len(),
{
    let mut left = tally_votes(a, b);
    let ghost all = top(left@, TOP_OFFSETS as nat);
    let ghost nb: int = b@.len() as int;
    let mut out: Vec<isize> = Vec::new();
    let mut n: usize = TOP_OFFSETS;
    proof {
        lemma_top(left@, TOP_OFFSETS as nat);
        assert(all.skip(0) =~= all);
    }
    loop
        invariant_except_break
            all.skip(out@.len() as int) == top(left@, n as nat),
        invariant
            held(a@),
            held(b@),
            nb == b@.len(),
            left@.len() == a@.len() + b@.len(),
            all.len() <= TOP_OFFSETS,
            out@.len() <= all.len(),
            forall|i: int| 0 <= i < all.len() ==> 0 <= (#[trigger] all[i]) < left@.len(),
            forall|i: int| 0 <= i < out@.len() ==> (#[trigger] out@[i]) == all[i] - nb,
        ensures
            out@.len() == all.len(),
        decreases n,
    {
        if n == 0 || left.len() == 0 {
            assert(all.skip(out@.len() as int).len() == 0);
            break;
        }
        proof {
            lemma_best(left@, left@.len() as int);
        }
        let m = best_place(&left);
        if left[m] < MIN_VOTES {
            assert(all.skip(out@.len() as int).len() == 0);
            break;
        }
        proof {
            let here = all.skip(out@.len() as int);
            assert(here.len() > 0);
            assert(here[0] == m);
            assert(all[out@.len() as int] == here[0]);
            assert(all.skip((out@.len() + 1) as int) =~= here.skip(1));
            assert(here.skip(1) =~= top(left@.update(m as int, 0), (n - 1) as nat));
        }
        out.push(m as isize - b.len() as isize);
        left.set(m, 0);
        n -= 1;
    }
    out
}

// -------------------------------------------------------------------- runs

/// An alignment walked so far: the runs found, and the one that is open as
/// (start, last matching item, items matched).
#[verifier::ext_equal]
pub struct Walk {
    pub runs: Seq<Run>,
    pub open: Option<(int, int, int)>,
}

/// The walk with its open run closed: it counts when it is long enough and
/// well enough matched.
pub open spec fn closed(w: Walk, offset: int, limits: Limits) -> Walk {
    match w.open {
        Some((start, last, matched)) => {
            let len = last - start + 1;
            if len >= limits.min_items && matched >= limits.least_matched@[len] {
                Walk {
                    runs: w.runs.push(
                        Run { start: start as usize, len: len as usize, offset: offset as isize },
                    ),
                    open: None,
                }
            } else {
                Walk { runs: w.runs, open: None }
            }
        },
        None => w,
    }
}

/// One more item: it extends the open run or opens one where it matches, and
/// closes it where the gap has grown too wide.
pub open spec fn step(
    w: Walk,
    a: Seq<u32>,
    b: Seq<u32>,
    offset: int,
    limits: Limits,
    i: int,
) -> Walk {
    if alike(a[i], b[i - offset]) {
        match w.open {
            Some((start, _, matched)) => Walk { open: Some((start, i, matched + 1)), ..w },
            None => Walk { open: Some((i, i, 1)), ..w },
        }
    } else {
        match w.open {
            Some((_, last, _)) => if i - last > limits.gap_items {
                closed(w, offset, limits)
            } else {
                w
            },
            None => w,
        }
    }
}

/// Where the two prints overlap along an alignment, in items of the first.
pub open spec fn overlap_start(offset: int) -> int {
    if offset > 0 {
        offset
    } else {
        0
    }
}

pub open spec fn overlap_end(a: Seq<u32>, b: Seq<u32>, offset: int) -> int {
    let e = if b.len() + offset > 0 {
        b.len() + offset
    } else {
        0
    };
    if a.len() < e {
        a.len() as int
    } else {
        e
    }
}

/// The walk up to item `n`.
pub open spec fn walk(a: Seq<u32>, b: Seq<u32>, offset: int, limits: Limits, n: int) -> Walk
    decreases n,
{
    if n <= overlap_start(offset) {
        Walk { runs: seq![], open: None }
    } else {
        step(walk(a, b, offset, limits, n - 1), a, b, offset, limits, n - 1)
    }
}

/// Runs of matching items along one alignment (a[i] against
/// b[i - offset]), bridging gaps up to gap_items. A run must be min_items
/// long and well matched.
pub open spec fn runs_along(a: Seq<u32>, b: Seq<u32>, offset: int, limits: Limits) -> Seq<Run> {
    closed(walk(a, b, offset, limits, overlap_end(a, b, offset)), offset, limits).runs
}

fn push_run(
    out: &mut Vec<Run>,
    open: Option<(usize, usize, usize)>,
    offset: isize,
    limits: &Limits,
)
    requires
        match open {
            Some((start, last, matched)) => start <= last && last < usize::MAX && limits.cover(
                last - start + 1,
            ),
            None => true,
        },
    ensures
        final(out)@ == closed(
            Walk { runs: old(out)@, open: open_view(open) },
            offset as int,
            *limits,
        ).runs,
{
    if let Some((start, last, matched)) = open {
        let len: usize = last - start + 1;
        if len >= limits.min_items && matched >= limits.least_matched[len] {
            out.push(Run { start, len, offset });
        }
    }
}

pub open spec fn open_view(open: Option<(usize, usize, usize)>) -> Option<(int, int, int)> {
    match open {
        Some((s, l, m)) => Some((s as int, l as int, m as int)),
        None => None,
    }
}

pub fn runs_at(a: &Vec<u32>, b: &Vec<u32>, offset: isize, limits: &Limits) -> (r: Vec<Run>)
    requires
        held(a@),
        held(b@),
        -b@.len() <= offset < a@.len(),
        limits.cover(a@.len() as int),
    ensures
        r@ == runs_along(a@, b@, offset as int, *limits),
{
    let first: usize = if offset > 0 {
        offset as usize
    } else {
        0
    };
    let reach: isize = b.len() as isize + offset;
    let last: usize = if a.len() < reach as usize {
        a.len()
    } else {
        reach as usize
    };
    let mut out: Vec<Run> = Vec::new();
    let mut open: Option<(usize, usize, usize)> = None;
    let mut i: usize = first;
    assert(overlap_start(offset as int) == first);
    assert(overlap_end(a@, b@, offset as int) == last);
    if first < last {
        while i < last
            invariant
                held(a@),
                held(b@),
                -b@.len() <= offset < a@.len(),
                limits.cover(a@.len() as int),
                first == overlap_start(offset as int),
                last == overlap_end(a@, b@, offset as int),
                first <= i <= last <= a@.len(),
                out@ == walk(a@, b@, offset as int, *limits, i as int).runs,
                open_view(open) == walk(a@, b@, offset as int, *limits, i as int).open,
                match open {
                    Some((s, l, m)) => first <= s <= l < i && m <= l - s + 1,
                    None => true,
                },
            decreases last - i,
        {
            let j: usize = (i as isize - offset) as usize;
            if count_ones(a[i] ^ b[j]) <= MAX_BITS {
                open = match open {
                    Some((s, _, m)) => Some((s, i, m + 1)),
                    None => Some((i, i, 1)),
                };
            } else {
                let wide = match open {
                    Some((_, l, _)) => i - l > limits.gap_items,
                    None => false,
                };
                if wide {
                    push_run(&mut out, open, offset, limits);
                    open = None;
                }
            }
            i += 1;
        }
    }
    push_run(&mut out, open, offset, limits);
    out
}

/// The runs along each of these alignments, one after the other.
pub open spec fn runs_along_all(
    a: Seq<u32>,
    b: Seq<u32>,
    offsets: Seq<int>,
    limits: Limits,
) -> Seq<Run>
    decreases offsets.len(),
{
    if offsets.len() == 0 {
        seq![]
    } else {
        runs_along_all(a, b, offsets.drop_last(), limits) + runs_along(
            a,
            b,
            offsets.last(),
            limits,
        )
    }
}

pub open spec fn backward(runs: Seq<Run>) -> Seq<i64> {
    Seq::new(runs.len(), |i: int| -(runs[i].len as int) as i64)
}

/// The order that puts the longest runs first; equal ones keep theirs.
pub open spec fn longest_order(runs: Seq<Run>) -> Seq<usize> {
    choose|o: Seq<usize>| order::sorts_numbers(o, backward(runs), runs.len() as int)
}

pub open spec fn longest_first(runs: Seq<Run>) -> Seq<Run> {
    let o = longest_order(runs);
    Seq::new(o.len(), |i: int| runs[o[i] as int])
}

/// Whether most of a run lies where another one does.
pub open spec fn covered(run: Run, k: Run) -> bool {
    let lo = if run.start > k.start {
        run.start as int
    } else {
        k.start as int
    };
    let hi = if run.start + run.len < k.start + k.len {
        run.start + run.len
    } else {
        k.start + k.len
    };
    hi > lo && (hi - lo) * 2 > run.len
}

pub open spec fn covered_by_any(run: Run, kept: Seq<Run>) -> bool {
    exists|i: int| 0 <= i < kept.len() && covered(run, #[trigger] kept[i])
}

/// Adjacent alignments (codec framing off by an item) produce near-
/// duplicate runs; a run is kept only when most of it is new territory.
pub open spec fn apart(runs: Seq<Run>) -> Seq<Run>
    decreases runs.len(),
{
    if runs.len() == 0 {
        seq![]
    } else {
        let kept = apart(runs.drop_last());
        if covered_by_any(runs.last(), kept) {
            kept
        } else {
            kept.push(runs.last())
        }
    }
}

pub open spec fn no_longer_than(runs: Seq<Run>, most: int) -> Seq<Run>
    decreases runs.len(),
{
    if runs.len() == 0 {
        seq![]
    } else if runs.last().len <= most {
        no_longer_than(runs.drop_last(), most).push(runs.last())
    } else {
        no_longer_than(runs.drop_last(), most)
    }
}

pub open spec fn shorter(a: Seq<u32>, b: Seq<u32>) -> int {
    if a.len() < b.len() {
        a.len() as int
    } else {
        b.len() as int
    }
}

/// The sufficiently similar stretches two fingerprints share, longest first.
pub open spec fn shared(a: Seq<u32>, b: Seq<u32>, limits: Limits) -> Seq<Run> {
    if a.len() < 8 || b.len() < 8 {
        seq![]
    } else {
        no_longer_than(
            apart(longest_first(runs_along_all(a, b, alignments(a, b), limits))),
            limits.longest@[shorter(a, b)] as int,
        )
    }
}

/// A run that lies in both prints.
pub open spec fn lies_in(run: Run, a: Seq<u32>, b: Seq<u32>) -> bool {
    &&& run.len > 0
    &&& run.start + run.len <= a.len()
    &&& 0 <= run.start - run.offset
    &&& run.start - run.offset + run.len <= b.len()
}

/// A run's ends match, and it is long enough and well enough matched.
pub open spec fn fair(run: Run, a: Seq<u32>, b: Seq<u32>, limits: Limits) -> bool {
    &&& lies_in(run, a, b)
    &&& run.len >= limits.min_items
    &&& alike(a[run.start as int], b[run.start - run.offset])
    &&& alike(a[run.start + run.len - 1], b[run.start - run.offset + run.len - 1])
}

proof fn lemma_walk(a: Seq<u32>, b: Seq<u32>, offset: int, limits: Limits, n: int)
    requires
        held(a),
        held(b),
        -b.len() <= offset < a.len(),
        n <= overlap_end(a, b, offset),
    ensures
        ({
            let w = walk(a, b, offset, limits, n);
            &&& forall|k: int| 0 <= k < w.runs.len() ==> fair(#[trigger] w.runs[k], a, b, limits)
            &&& w.open matches Some((s, l, m)) ==> overlap_start(offset) <= s <= l < n && alike(
                a[s],
                b[s - offset],
            ) && alike(a[l], b[l - offset])
        }),
    decreases n,
{
    if n > overlap_start(offset) {
        lemma_walk(a, b, offset, limits, n - 1);
        let before = walk(a, b, offset, limits, n - 1);
        lemma_closed(before, a, b, offset, limits, n - 1);
    }
}

proof fn lemma_closed(
    w: Walk,
    a: Seq<u32>,
    b: Seq<u32>,
    offset: int,
    limits: Limits,
    n: int,
)
    requires
        held(a),
        held(b),
        -b.len() <= offset < a.len(),
        n <= overlap_end(a, b, offset),
        forall|k: int| 0 <= k < w.runs.len() ==> fair(#[trigger] w.runs[k], a, b, limits),
        w.open matches Some((s, l, m)) ==> overlap_start(offset) <= s <= l < n && alike(
            a[s],
            b[s - offset],
        ) && alike(a[l], b[l - offset]),
    ensures
        forall|k: int|
            0 <= k < closed(w, offset, limits).runs.len() ==> fair(
                #[trigger] closed(w, offset, limits).runs[k],
                a,
                b,
                limits,
            ),
{
    if let Some((s, l, m)) = w.open {
        let len = l - s + 1;
        let run = Run { start: s as usize, len: len as usize, offset: offset as isize };
        assert(run.start == s && run.len == len && run.offset == offset);
    }
}

proof fn lemma_runs_along(a: Seq<u32>, b: Seq<u32>, offset: int, limits: Limits)
    requires
        held(a),
        held(b),
        -b.len() <= offset < a.len(),
    ensures
        forall|k: int|
            0 <= k < runs_along(a, b, offset, limits).len() ==> fair(
                #[trigger] runs_along(a, b, offset, limits)[k],
                a,
                b,
                limits,
            ),
{
    let n = overlap_end(a, b, offset);
    lemma_walk(a, b, offset, limits, n);
    lemma_closed(walk(a, b, offset, limits, n), a, b, offset, limits, n);
}

proof fn lemma_runs_along_all(a: Seq<u32>, b: Seq<u32>, offsets: Seq<int>, limits: Limits)
    requires
        held(a),
        held(b),
        forall|i: int| 0 <= i < offsets.len() ==> -b.len() <= (#[trigger] offsets[i]) < a.len(),
    ensures
        forall|k: int|
            0 <= k < runs_along_all(a, b, offsets, limits).len() ==> fair(
                #[trigger] runs_along_all(a, b, offsets, limits)[k],
                a,
                b,
                limits,
            ),
    decreases offsets.len(),
{
    if offsets.len() > 0 {
        let head = offsets.drop_last();
        assert forall|i: int| 0 <= i < head.len() implies -b.len() <= (#[trigger] head[i])
            < a.len() by {
            assert(head[i] == offsets[i]);
        }
        lemma_runs_along_all(a, b, head, limits);
        lemma_runs_along(a, b, offsets.last(), limits);
        let x = runs_along_all(a, b, head, limits);
        let y = runs_along(a, b, offsets.last(), limits);
        let all = runs_along_all(a, b, offsets, limits);
        assert forall|k: int| 0 <= k < all.len() implies fair(#[trigger] all[k], a, b, limits) by {
            if k < x.len() {
                assert(all[k] == x[k]);
            } else {
                assert(all[k] == y[k - x.len()]);
            }
        }
    }
}

fn all_runs(a: &Vec<u32>, b: &Vec<u32>, limits: &Limits) -> (r: Vec<Run>)
    requires
        held(a@),
        held(b@),
        limits.cover(a@.len() as int),
    ensures
        r@ == runs_along_all(a@, b@, alignments(a@, b@), *limits),
{
    let offsets = best_alignments(a, b);
    let ghost os = alignments(a@, b@);
    let mut out: Vec<Run> = Vec::new();
    let mut i: usize = 0;
    assert(os.take(0) =~= seq![]);
    while i < offsets.len()
        invariant
            i <= offsets.len(),
            held(a@),
            held(b@),
            limits.cover(a@.len() as int),
            os == alignments(a@, b@),
            offsets@.len() == os.len(),
            forall|k: int| 0 <= k < os.len() ==> (#[trigger] offsets@[k]) == os[k],
            forall|k: int|
                0 <= k < offsets@.len() ==> -b@.len() <= (#[trigger] offsets@[k]) < a@.len(),
            out@ == runs_along_all(a@, b@, os.take(i as int), *limits),
        decreases offsets.len() - i,
    {
        proof {
            assert(os.take(i + 1).drop_last() =~= os.take(i as int));
            assert(offsets@[i as int] == os[i as int]);
        }
        let mut more = runs_at(a, b, offsets[i], limits);
        out.append(&mut more);
        i += 1;
    }
    assert(os.take(i as int) =~= os);
    out
}

fn sort_longest_first(runs: &Vec<Run>) -> (r: Vec<Run>)
    requires
        forall|i: int| 0 <= i < runs@.len() ==> (#[trigger] runs@[i]).len <= isize::MAX,
    ensures
        r@ == longest_first(runs@),
        order::sorts_numbers(longest_order(runs@), backward(runs@), runs@.len() as int),
{
    let mut keys: Vec<i64> = Vec::new();
    let mut i: usize = 0;
    while i < runs.len()
        invariant
            i <= runs.len(),
            keys@.len() == i,
            forall|k: int| 0 <= k < runs@.len() ==> (#[trigger] runs@[k]).len <= isize::MAX,
            forall|k: int| 0 <= k < i ==> (#[trigger] keys@[k]) == backward(runs@)[k],
        decreases runs.len() - i,
    {
        assert(runs@[i as int].len <= isize::MAX);
        keys.push(-(runs[i].len as i64));
        i += 1;
    }
    assert(keys@ =~= backward(runs@));
    let sorted = order::sorted_numbers(&keys);
    proof {
        order::lemma_one_order(
            sorted@,
            longest_order(runs@),
            backward(runs@),
            runs@.len() as int,
        );
    }
    let mut out: Vec<Run> = Vec::new();
    let mut i: usize = 0;
    while i < sorted.len()
        invariant
            i <= sorted.len(),
            sorted@ == longest_order(runs@),
            order::sorts_numbers(sorted@, backward(runs@), runs@.len() as int),
            out@ == longest_first(runs@).take(i as int),
        decreases sorted.len() - i,
    {
        assert(0 <= sorted@[i as int] < runs@.len());
        out.push(runs[sorted[i]]);
        i += 1;
        assert(out@ =~= longest_first(runs@).take(i as int));
    }
    assert(out@ =~= longest_first(runs@));
    out
}

fn is_covered(run: Run, kept: &Vec<Run>, within: usize) -> (r: bool)
    requires
        within <= isize::MAX,
        run.start + run.len <= within,
        forall|i: int|
            0 <= i < kept@.len() ==> (#[trigger] kept@[i]).start + kept@[i].len <= within,
    ensures
        r == covered_by_any(run, kept@),
{
    let mut i: usize = 0;
    while i < kept.len()
        invariant
            i <= kept.len(),
            within <= isize::MAX,
            run.start + run.len <= within,
            forall|k: int|
                0 <= k < kept@.len() ==> (#[trigger] kept@[k]).start + kept@[k].len <= within,
            forall|k: int| 0 <= k < i ==> !covered(run, #[trigger] kept@[k]),
        decreases kept.len() - i,
    {
        let k = kept[i];
        assert(kept@[i as int].start + kept@[i as int].len <= within);
        let lo: usize = if run.start > k.start {
            run.start
        } else {
            k.start
        };
        let hi: usize = if run.start + run.len < k.start + k.len {
            run.start + run.len
        } else {
            k.start + k.len
        };
        if hi > lo && (hi - lo) * 2 > run.len {
            assert(covered(run, kept@[i as int]));
            return true;
        }
        i += 1;
    }
    false
}

proof fn lemma_apart_within(runs: Seq<Run>, within: int)
    requires
        forall|i: int| 0 <= i < runs.len() ==> (#[trigger] runs[i]).start + runs[i].len <= within,
    ensures
        forall|i: int|
            0 <= i < apart(runs).len() ==> (#[trigger] apart(runs)[i]).start + apart(runs)[i].len
                <= within,
    decreases runs.len(),
{
    if runs.len() > 0 {
        assert forall|i: int| 0 <= i < runs.len() - 1 implies (#[trigger] runs.drop_last()[i]).start
            + runs.drop_last()[i].len <= within by {
            assert(runs.drop_last()[i] == runs[i]);
        }
        lemma_apart_within(runs.drop_last(), within);
        assert(runs[runs.len() - 1].start + runs[runs.len() - 1].len <= within);
        let head = apart(runs.drop_last());
        assert forall|i: int| 0 <= i < apart(runs).len() implies (#[trigger] apart(runs)[i]).start
            + apart(runs)[i].len <= within by {
            if i < head.len() {
                assert(apart(runs)[i] == head[i]);
            }
        }
    }
}

fn keep_apart(runs: &Vec<Run>, within: usize) -> (r: Vec<Run>)
    requires
        2 * within <= isize::MAX,
        forall|i: int| 0 <= i < runs@.len() ==> (#[trigger] runs@[i]).start + runs@[i].len <= within,
    ensures
        r@ == apart(runs@),
{
    let mut kept: Vec<Run> = Vec::new();
    let mut i: usize = 0;
    assert(runs@.take(0) =~= seq![]);
    while i < runs.len()
        invariant
            i <= runs.len(),
            2 * within <= isize::MAX,
            forall|k: int|
                0 <= k < runs@.len() ==> (#[trigger] runs@[k]).start + runs@[k].len <= within,
            kept@ == apart(runs@.take(i as int)),
        decreases runs.len() - i,
    {
        proof {
            let part = runs@.take(i as int);
            assert forall|k: int| 0 <= k < part.len() implies (#[trigger] part[k]).start
                + part[k].len <= within by {
                assert(part[k] == runs@[k]);
            }
            lemma_apart_within(part, within as int);
            assert(runs@.take(i + 1).drop_last() =~= part);
            assert(runs@[i as int].start + runs@[i as int].len <= within);
        }
        if !is_covered(runs[i], &kept, within) {
            kept.push(runs[i]);
        }
        i += 1;
    }
    assert(runs@.take(i as int) =~= runs@);
    kept
}

fn keep_short(runs: &Vec<Run>, most: usize) -> (r: Vec<Run>)
    ensures
        r@ == no_longer_than(runs@, most as int),
{
    let mut out: Vec<Run> = Vec::new();
    let mut i: usize = 0;
    assert(runs@.take(0) =~= seq![]);
    while i < runs.len()
        invariant
            i <= runs.len(),
            out@ == no_longer_than(runs@.take(i as int), most as int),
        decreases runs.len() - i,
    {
        assert(runs@.take(i + 1).drop_last() =~= runs@.take(i as int));
        if runs[i].len <= most {
            out.push(runs[i]);
        }
        i += 1;
    }
    assert(runs@.take(i as int) =~= runs@);
    out
}

proof fn lemma_alignments(a: Seq<u32>, b: Seq<u32>)
    ensures
        forall|i: int|
            0 <= i < alignments(a, b).len() ==> -b.len() <= (#[trigger] alignments(a, b)[i])
                < a.len(),
{
    lemma_top(tally(a, b), TOP_OFFSETS as nat);
    let places = top(tally(a, b), TOP_OFFSETS as nat);
    assert forall|i: int| 0 <= i < alignments(a, b).len() implies -b.len() <= (
    #[trigger] alignments(a, b)[i]) < a.len() by {
        assert(0 <= places[i] < tally(a, b).len());
    }
}

/// The sufficiently similar stretches two fingerprints share, longest
/// first.
///
/// A single global alignment (what fingerprint comparison libraries
/// compute) cannot serve here: two episodes' intros and credits sit at
/// different relative offsets because the bodies between them differ in
/// length. So candidate alignments are found by voting — exact matches on
/// the top 12 bits of each item — and each promising alignment is walked
/// for gap-bridged runs of near-identical items; runs from different
/// alignments covering the same region collapse to the longest.
pub fn common_spans(a: &Vec<u32>, b: &Vec<u32>, limits: &Limits) -> (r: Vec<Run>)
    requires
        held(a@),
        held(b@),
        limits.cover(a@.len() as int),
    ensures
        r@ == shared(a@, b@, *limits),
        forall|i: int| 0 <= i < r@.len() ==> lies_in(#[trigger] r@[i], a@, b@),
{
    proof {
        shared_runs_are_fair(a@, b@, *limits);
    }
    if a.len() < 8 || b.len() < 8 {
        return Vec::new();
    }
    let runs = all_runs(a, b, limits);
    proof {
        lemma_alignments(a@, b@);
        lemma_runs_along_all(a@, b@, alignments(a@, b@), *limits);
        assert forall|i: int| 0 <= i < runs@.len() implies (#[trigger] runs@[i]).len
            <= isize::MAX by {
            assert(fair(runs@[i], a@, b@, *limits));
        }
    }
    let sorted = sort_longest_first(&runs);
    proof {
        let o = longest_order(runs@);
        assert forall|i: int| 0 <= i < sorted@.len() implies (#[trigger] sorted@[i]).start
            + sorted@[i].len <= a@.len() by {
            assert(0 <= o[i] < runs@.len());
            assert(fair(runs@[o[i] as int], a@, b@, *limits));
        }
    }
    let kept = keep_apart(&sorted, a.len());
    let window: usize = if a.len() < b.len() {
        a.len()
    } else {
        b.len()
    };
    let out = keep_short(&kept, limits.longest[window]);
    assert forall|i: int| 0 <= i < out@.len() implies lies_in(#[trigger] out@[i], a@, b@) by {
        assert(fair(shared(a@, b@, *limits)[i], a@, b@, *limits));
    }
    out
}

// ------------------------------------------------------------- the season

/// An episode as the matcher sees it.
#[derive(Debug)]
pub struct Episode {
    pub episode: i64,
    pub head: Vec<u32>,
    pub tail: Vec<u32>,
    /// The first item of the head that starts too late for an intro: a short
    /// episode fits entirely inside the head window, so its credits match
    /// there too — starting in the back half of an episode disqualifies a run
    /// as its intro.
    pub intro_limit: usize,
}

/// The stretches an episode shares with others, as (start, len) in items of
/// its own windows.
#[derive(Debug)]
pub struct Shares {
    pub head: Vec<(usize, usize)>,
    pub tail: Vec<(usize, usize)>,
}

/// The prints fit, and the limits cover them.
pub open spec fn season_fits(episodes: Seq<Episode>, limits: Limits) -> bool {
    forall|i: int|
        0 <= i < episodes.len() ==> held((#[trigger] episodes[i]).head@) && held(
            episodes[i].tail@,
        ) && limits.cover(episodes[i].head@.len() as int) && limits.cover(
            episodes[i].tail@.len() as int,
        )
}

/// The index of the first run that can be an intro on both sides.
pub open spec fn first_intro(runs: Seq<Run>, x: Episode, y: Episode) -> int
    decreases runs.len(),
{
    if runs.len() == 0 || (runs[0].start < x.intro_limit && runs[0].start - runs[0].offset
        < y.intro_limit) {
        0
    } else {
        1 + first_intro(runs.drop_first(), x, y)
    }
}

/// The longest shared run of two heads that can be an intro on both sides.
pub open spec fn head_run(x: Episode, y: Episode, limits: Limits) -> Option<Run> {
    let runs = shared(x.head@, y.head@, limits);
    let i = first_intro(runs, x, y);
    if i < runs.len() {
        Some(runs[i])
    } else {
        None
    }
}

/// The longest shared run of two tails.
pub open spec fn tail_run(x: Episode, y: Episode, limits: Limits) -> Option<Run> {
    let runs = shared(x.tail@, y.tail@, limits);
    if runs.len() > 0 {
        Some(runs[0])
    } else {
        None
    }
}

/// A run's place in the first print, or in the second.
pub open spec fn side(run: Option<Run>, second: bool) -> Seq<(usize, usize)> {
    match run {
        Some(r) => seq![
            (
                if second {
                    (r.start - r.offset) as usize
                } else {
                    r.start
                },
                r.len,
            ),
        ],
        None => seq![],
    }
}

/// What episode `k` shares with episode `o`; the earlier of the two is the
/// first print. Two renditions of one episode are identical throughout and
/// would "match" wall to wall, so they share nothing.
pub open spec fn shared_with(
    episodes: Seq<Episode>,
    limits: Limits,
    k: int,
    o: int,
    heads: bool,
) -> Seq<(usize, usize)> {
    if k == o || episodes[k].episode == episodes[o].episode {
        seq![]
    } else {
        let (x, y) = if k < o {
            (episodes[k], episodes[o])
        } else {
            (episodes[o], episodes[k])
        };
        side(
            if heads {
                head_run(x, y, limits)
            } else {
                tail_run(x, y, limits)
            },
            o < k,
        )
    }
}

/// What episode `k` shares with the first `n` episodes, in order.
pub open spec fn shares(
    episodes: Seq<Episode>,
    limits: Limits,
    k: int,
    n: int,
    heads: bool,
) -> Seq<(usize, usize)>
    decreases n,
{
    if n <= 0 {
        seq![]
    } else {
        shares(episodes, limits, k, n - 1, heads) + shared_with(episodes, limits, k, n - 1, heads)
    }
}

proof fn lemma_first_intro(runs: Seq<Run>, x: Episode, y: Episode, i: int)
    requires
        0 <= i <= runs.len(),
        forall|k: int|
            0 <= k < i ==> !((#[trigger] runs[k]).start < x.intro_limit && runs[k].start
                - runs[k].offset < y.intro_limit),
        i < runs.len() ==> runs[i].start < x.intro_limit && runs[i].start - runs[i].offset
            < y.intro_limit,
    ensures
        first_intro(runs, x, y) == i,
    decreases runs.len(),
{
    if i > 0 {
        let rest = runs.drop_first();
        assert(!(runs[0].start < x.intro_limit && runs[0].start - runs[0].offset < y.intro_limit));
        assert forall|k: int| 0 <= k < i - 1 implies !((#[trigger] rest[k]).start < x.intro_limit
            && rest[k].start - rest[k].offset < y.intro_limit) by {
            assert(rest[k] == runs[k + 1]);
        }
        lemma_first_intro(rest, x, y, i - 1);
    }
}

fn find_intro(x: &Episode, y: &Episode, limits: &Limits) -> (r: Option<Run>)
    requires
        held(x.head@),
        held(y.head@),
        limits.cover(x.head@.len() as int),
    ensures
        r == head_run(*x, *y, *limits),
        r matches Some(run) ==> lies_in(run, x.head@, y.head@),
{
    let runs = common_spans(&x.head, &y.head, limits);
    let mut i: usize = 0;
    while i < runs.len()
        invariant
            i <= runs.len(),
            held(x.head@),
            held(y.head@),
            runs@ == shared(x.head@, y.head@, *limits),
            forall|k: int| 0 <= k < runs@.len() ==> lies_in(#[trigger] runs@[k], x.head@, y.head@),
            forall|k: int|
                0 <= k < i ==> !((#[trigger] runs@[k]).start < x.intro_limit && runs@[k].start
                    - runs@[k].offset < y.intro_limit),
        decreases runs.len() - i,
    {
        let run = runs[i];
        assert(lies_in(runs@[i as int], x.head@, y.head@));
        let other: usize = (run.start as isize - run.offset) as usize;
        if run.start < x.intro_limit && other < y.intro_limit {
            proof {
                lemma_first_intro(runs@, *x, *y, i as int);
            }
            return Some(run);
        }
        i += 1;
    }
    proof {
        lemma_first_intro(runs@, *x, *y, i as int);
    }
    None
}

fn find_credits(x: &Episode, y: &Episode, limits: &Limits) -> (r: Option<Run>)
    requires
        held(x.tail@),
        held(y.tail@),
        limits.cover(x.tail@.len() as int),
    ensures
        r == tail_run(*x, *y, *limits),
        r matches Some(run) ==> lies_in(run, x.tail@, y.tail@),
{
    let runs = common_spans(&x.tail, &y.tail, limits);
    if runs.len() > 0 {
        assert(lies_in(runs@[0], x.tail@, y.tail@));
        Some(runs[0])
    } else {
        None
    }
}

/// How far the pairings of episode `k` have come when pair `(i, j)` is next.
spec fn progress(k: int, i: int, j: int, n: int) -> int {
    if k < i {
        n
    } else if k == i {
        j
    } else if k < j {
        i + 1
    } else {
        i
    }
}

fn push_sides(
    lists: &mut Vec<Vec<(usize, usize)>>,
    i: usize,
    j: usize,
    run: Option<Run>,
)
    requires
        i < j < old(lists)@.len(),
        match run {
            Some(r) => 0 <= r.start - r.offset <= isize::MAX && r.start <= isize::MAX,
            None => true,
        },
    ensures
        final(lists)@.len() == old(lists)@.len(),
        forall|k: int|
            0 <= k < final(lists)@.len() && k != i && k != j ==> (#[trigger] final(lists)@[k])@
                == old(lists)@[k]@,
        final(lists)@[i as int]@ == old(lists)@[i as int]@ + side(run, false),
        final(lists)@[j as int]@ == old(lists)@[j as int]@ + side(run, true),
{
    if let Some(r) = run {
        let other: usize = (r.start as isize - r.offset) as usize;
        lists[i].push((r.start, r.len));
        lists[j].push((other, r.len));
    }
    assert(lists@[i as int]@ =~= old(lists)@[i as int]@ + side(run, false));
    assert(lists@[j as int]@ =~= old(lists)@[j as int]@ + side(run, true));
}

/// The lists hold what each episode shares, as far as pair `(i, j)`.
spec fn come_to(
    lists: Seq<Vec<(usize, usize)>>,
    episodes: Seq<Episode>,
    limits: Limits,
    i: int,
    j: int,
    heads: bool,
) -> bool {
    &&& lists.len() == episodes.len()
    &&& forall|q: int|
        0 <= q < lists.len() ==> (#[trigger] lists[q])@ == shares(
            episodes,
            limits,
            q,
            progress(q, i, j, episodes.len() as int),
            heads,
        )
}

/// One pairing moves the two lists on and leaves the others where they are.
proof fn lemma_paired(
    before: Seq<Vec<(usize, usize)>>,
    after: Seq<Vec<(usize, usize)>>,
    episodes: Seq<Episode>,
    limits: Limits,
    i: int,
    j: int,
    heads: bool,
)
    requires
        0 <= i < j < episodes.len(),
        come_to(before, episodes, limits, i, j, heads),
        after.len() == before.len(),
        forall|q: int|
            0 <= q < after.len() && q != i && q != j ==> (#[trigger] after[q])@ == before[q]@,
        after[i]@ == before[i]@ + shared_with(episodes, limits, i, j, heads),
        after[j]@ == before[j]@ + shared_with(episodes, limits, j, i, heads),
    ensures
        come_to(after, episodes, limits, i, j + 1, heads),
{
    assert forall|q: int| 0 <= q < after.len() implies (#[trigger] after[q])@ == shares(
        episodes,
        limits,
        q,
        progress(q, i, j + 1, episodes.len() as int),
        heads,
    ) by {
        assert(before[q]@ == shares(
            episodes,
            limits,
            q,
            progress(q, i, j, episodes.len() as int),
            heads,
        ));
    }
}

/// Between two rows of pairings: an episode shares nothing with itself.
proof fn lemma_next_row(
    lists: Seq<Vec<(usize, usize)>>,
    episodes: Seq<Episode>,
    limits: Limits,
    i: int,
    heads: bool,
)
    requires
        0 <= i < episodes.len(),
        come_to(lists, episodes, limits, i, i, heads),
    ensures
        come_to(lists, episodes, limits, i, i + 1, heads),
{
    assert(shares(episodes, limits, i, i + 1, heads) =~= shares(episodes, limits, i, i, heads));
    assert forall|q: int| 0 <= q < lists.len() implies (#[trigger] lists[q])@ == shares(
        episodes,
        limits,
        q,
        progress(q, i, i + 1, episodes.len() as int),
        heads,
    ) by {
        assert(lists[q]@ == shares(
            episodes,
            limits,
            q,
            progress(q, i, i, episodes.len() as int),
            heads,
        ));
    }
}

proof fn lemma_row_done(
    lists: Seq<Vec<(usize, usize)>>,
    episodes: Seq<Episode>,
    limits: Limits,
    i: int,
    heads: bool,
)
    requires
        0 <= i < episodes.len(),
        come_to(lists, episodes, limits, i, episodes.len() as int, heads),
    ensures
        come_to(lists, episodes, limits, i + 1, i + 1, heads),
{
    assert forall|q: int| 0 <= q < lists.len() implies (#[trigger] lists[q])@ == shares(
        episodes,
        limits,
        q,
        progress(q, i + 1, i + 1, episodes.len() as int),
        heads,
    ) by {
        assert(lists[q]@ == shares(
            episodes,
            limits,
            q,
            progress(q, i, episodes.len() as int, episodes.len() as int),
            heads,
        ));
    }
}

fn match_row(
    episodes: &Vec<Episode>,
    limits: &Limits,
    i: usize,
    heads: &mut Vec<Vec<(usize, usize)>>,
    tails: &mut Vec<Vec<(usize, usize)>>,
)
    requires
        season_fits(episodes@, *limits),
        i < episodes.len(),
        come_to(old(heads)@, episodes@, *limits, i as int, i as int, true),
        come_to(old(tails)@, episodes@, *limits, i as int, i as int, false),
    ensures
        come_to(final(heads)@, episodes@, *limits, i + 1, i + 1, true),
        come_to(final(tails)@, episodes@, *limits, i + 1, i + 1, false),
{
    let mut j: usize = i + 1;
    proof {
        lemma_next_row(heads@, episodes@, *limits, i as int, true);
        lemma_next_row(tails@, episodes@, *limits, i as int, false);
    }
    while j < episodes.len()
        invariant
            i < j <= episodes.len(),
            season_fits(episodes@, *limits),
            come_to(heads@, episodes@, *limits, i as int, j as int, true),
            come_to(tails@, episodes@, *limits, i as int, j as int, false),
        decreases episodes.len() - j,
    {
        let ghost es = episodes@;
        let ghost heads_before = heads@;
        let ghost tails_before = tails@;
        assert(held(es[i as int].head@) && held(es[j as int].head@));
        if episodes[i].episode != episodes[j].episode {
            let head = find_intro(&episodes[i], &episodes[j], limits);
            push_sides(heads, i, j, head);
            let tail = find_credits(&episodes[i], &episodes[j], limits);
            push_sides(tails, i, j, tail);
        }
        proof {
            assert(heads@[i as int]@ =~= heads_before[i as int]@ + shared_with(
                es,
                *limits,
                i as int,
                j as int,
                true,
            ));
            assert(heads@[j as int]@ =~= heads_before[j as int]@ + shared_with(
                es,
                *limits,
                j as int,
                i as int,
                true,
            ));
            assert(tails@[i as int]@ =~= tails_before[i as int]@ + shared_with(
                es,
                *limits,
                i as int,
                j as int,
                false,
            ));
            assert(tails@[j as int]@ =~= tails_before[j as int]@ + shared_with(
                es,
                *limits,
                j as int,
                i as int,
                false,
            ));
            lemma_paired(heads_before, heads@, es, *limits, i as int, j as int, true);
            lemma_paired(tails_before, tails@, es, *limits, i as int, j as int, false);
        }
        j += 1;
    }
    proof {
        lemma_row_done(heads@, episodes@, *limits, i as int, true);
        lemma_row_done(tails@, episodes@, *limits, i as int, false);
    }
}

/// What each episode of a season shares with the others.
pub fn match_season(episodes: &Vec<Episode>, limits: &Limits) -> (r: Vec<Shares>)
    requires
        season_fits(episodes@, *limits),
    ensures
        r@.len() == episodes@.len(),
        forall|k: int|
            0 <= k < r@.len() ==> (#[trigger] r@[k]).head@ == shares(
                episodes@,
                *limits,
                k,
                episodes@.len() as int,
                true,
            ) && r@[k].tail@ == shares(episodes@, *limits, k, episodes@.len() as int, false),
{
    let n = episodes.len();
    let mut heads: Vec<Vec<(usize, usize)>> = Vec::new();
    let mut tails: Vec<Vec<(usize, usize)>> = Vec::new();
    let mut k: usize = 0;
    while k < n
        invariant
            k <= n,
            heads@.len() == k,
            tails@.len() == k,
            forall|q: int| 0 <= q < k ==> (#[trigger] heads@[q])@ == Seq::<(usize, usize)>::empty(),
            forall|q: int| 0 <= q < k ==> (#[trigger] tails@[q])@ == Seq::<(usize, usize)>::empty(),
        decreases n - k,
    {
        heads.push(Vec::new());
        tails.push(Vec::new());
        k += 1;
    }
    let mut i: usize = 0;
    while i < n
        invariant
            i <= n,
            n == episodes.len(),
            season_fits(episodes@, *limits),
            come_to(heads@, episodes@, *limits, i as int, i as int, true),
            come_to(tails@, episodes@, *limits, i as int, i as int, false),
        decreases n - i,
    {
        match_row(episodes, limits, i, &mut heads, &mut tails);
        i += 1;
    }
    assert forall|q: int| 0 <= q < n implies (#[trigger] heads@[q])@ == shares(
        episodes@,
        *limits,
        q,
        n as int,
        true,
    ) by {
        assert(progress(q, n as int, n as int, n as int) == n);
    }
    assert forall|q: int| 0 <= q < n implies (#[trigger] tails@[q])@ == shares(
        episodes@,
        *limits,
        q,
        n as int,
        false,
    ) by {
        assert(progress(q, n as int, n as int, n as int) == n);
    }
    let mut out: Vec<Shares> = Vec::new();
    let mut k: usize = n;
    let mut back: Vec<Shares> = Vec::new();
    while k > 0
        invariant
            k <= n,
            n == episodes.len(),
            heads@.len() == k,
            tails@.len() == k,
            forall|q: int|
                0 <= q < k ==> (#[trigger] heads@[q])@ == shares(
                    episodes@,
                    *limits,
                    q,
                    n as int,
                    true,
                ),
            forall|q: int|
                0 <= q < k ==> (#[trigger] tails@[q])@ == shares(
                    episodes@,
                    *limits,
                    q,
                    n as int,
                    false,
                ),
            back@.len() == n - k,
            forall|q: int|
                0 <= q < back@.len() ==> (#[trigger] back@[q]).head@ == shares(
                    episodes@,
                    *limits,
                    n - 1 - q,
                    n as int,
                    true,
                ) && back@[q].tail@ == shares(episodes@, *limits, n - 1 - q, n as int, false),
        decreases k,
    {
        assert(heads@[k - 1]@ == shares(episodes@, *limits, k - 1, n as int, true));
        assert(tails@[k - 1]@ == shares(episodes@, *limits, k - 1, n as int, false));
        match (heads.pop(), tails.pop()) {
            (Some(head), Some(tail)) => {
                back.push(Shares { head, tail });
            },
            _ => {},
        }
        k -= 1;
    }
    while back.len() > 0
        invariant
            n == episodes.len(),
            back@.len() <= n,
            out@.len() == n - back@.len(),
            forall|q: int|
                0 <= q < back@.len() ==> (#[trigger] back@[q]).head@ == shares(
                    episodes@,
                    *limits,
                    n - 1 - q,
                    n as int,
                    true,
                ) && back@[q].tail@ == shares(episodes@, *limits, n - 1 - q, n as int, false),
            forall|q: int|
                0 <= q < out@.len() ==> (#[trigger] out@[q]).head@ == shares(
                    episodes@,
                    *limits,
                    q,
                    n as int,
                    true,
                ) && out@[q].tail@ == shares(episodes@, *limits, q, n as int, false),
        decreases back.len(),
    {
        match back.pop() {
            Some(s) => {
                out.push(s);
            },
            None => {},
        }
    }
    out
}

/// An episode needs agreement from two pairings, or one when the
/// season only has one other episode to compare against.
pub fn agreement_needed(episodes: usize) -> (r: usize)
    ensures
        r == (if episodes == 2 {
            1int
        } else {
            2
        }),
{
    if episodes == 2 {
        1
    } else {
        2
    }
}

pub open spec fn starts(spans: Seq<(i64, i64)>) -> Seq<i64> {
    Seq::new(spans.len(), |i: int| spans[i].0)
}

pub open spec fn stops(spans: Seq<(i64, i64)>) -> Seq<i64> {
    Seq::new(spans.len(), |i: int| spans[i].1)
}

/// The value in the middle when they stand in order (the upper of two).
pub open spec fn median(values: Seq<i64>) -> i64 {
    let o = choose|o: Seq<usize>| order::sorts_numbers(o, values, values.len() as int);
    values[o[values.len() as int / 2] as int]
}

fn median_of(values: &Vec<i64>) -> (r: i64)
    requires
        values@.len() > 0,
    ensures
        r == median(values@),
{
    let sorted = order::sorted_numbers(values);
    proof {
        let n = values@.len() as int;
        order::lemma_one_order(
            sorted@,
            choose|o: Seq<usize>| order::sorts_numbers(o, values@, n),
            values@,
            n,
        );
        assert(0 <= sorted@[n / 2] < n);
    }
    values[sorted[values.len() / 2]]
}

/// Median start/end across the spans this episode's pairings agreed on. The
/// ends of a span are whole numbers on a scale that keeps their order.
pub fn consensus(spans: &Vec<(i64, i64)>, need: usize) -> (r: Option<(i64, i64)>)
    ensures
        r == (if spans@.len() < need || spans@.len() == 0 || median(stops(spans@)) <= median(
            starts(spans@),
        ) {
            None
        } else {
            Some((median(starts(spans@)), median(stops(spans@))))
        }),
{
    if spans.len() < need || spans.len() == 0 {
        return None;
    }
    let mut from: Vec<i64> = Vec::new();
    let mut to: Vec<i64> = Vec::new();
    let mut i: usize = 0;
    while i < spans.len()
        invariant
            i <= spans.len(),
            from@ == starts(spans@).take(i as int),
            to@ == stops(spans@).take(i as int),
        decreases spans.len() - i,
    {
        from.push(spans[i].0);
        to.push(spans[i].1);
        i += 1;
        assert(from@ =~= starts(spans@).take(i as int));
        assert(to@ =~= stops(spans@).take(i as int));
    }
    assert(from@ =~= starts(spans@));
    assert(to@ =~= stops(spans@));
    let start = median_of(&from);
    let end = median_of(&to);
    if end > start {
        Some((start, end))
    } else {
        None
    }
}

/// The segments to store for an episode, in milliseconds: an intro, and
/// credits where they begin after it.
pub fn detected(intro: Option<(i64, i64)>, credits: Option<(i64, i64)>, credits_follow: bool) -> (r:
    Vec<Segment>)
    ensures
        r@ == (match intro {
            Some((s, e)) => seq![
                Segment { kind: SegmentKind::Intro, start_ms: s, end_ms: e },
            ],
            None => seq![],
        }) + (match credits {
            Some((s, e)) if credits_follow => seq![
                Segment { kind: SegmentKind::Credits, start_ms: s, end_ms: e },
            ],
            _ => seq![],
        }),
{
    let mut rows: Vec<Segment> = Vec::new();
    if let Some((start_ms, end_ms)) = intro {
        rows.push(Segment { kind: SegmentKind::Intro, start_ms, end_ms });
    }
    if let Some((start_ms, end_ms)) = credits {
        if credits_follow {
            rows.push(Segment { kind: SegmentKind::Credits, start_ms, end_ms });
        }
    }
    rows
}

// ---------------------------------------------------------------- decoding

/// Decode one audio window to mono 11025 Hz s16le via ffmpeg: the first
/// HEAD_SECS, or (via -sseof) the last TAIL_SECS. With -t as well: -sseof
/// trusts the container's declared duration, and a file whose real audio runs
/// far past it would otherwise decode to the true end into memory.
pub fn decode_args(path: &str, head: bool) -> (r: Vec<String>)
    ensures
        text::texts(r@) == seq!["-v"@, "error"@, "-nostdin"@] + (if head {
            seq!["-t"@, "600"@]
        } else {
            seq!["-sseof"@, "-300"@, "-t"@, "330"@]
        }) + seq![
            "-i"@,
            path@,
            "-map"@,
            "0:a:0"@,
            "-ac"@,
            "1"@,
            "-ar"@,
            "11025"@,
            "-f"@,
            "s16le"@,
            "-"@,
        ],
{
    let mut args: Vec<String> = Vec::new();
    text::push_words(&mut args, &["-v", "error", "-nostdin"]);
    if head {
        text::push_words(&mut args, &["-t", "600"]);
    } else {
        text::push_words(&mut args, &["-sseof", "-300", "-t", "330"]);
    }
    let ghost so_far = text::texts(args@);
    assert(so_far =~= seq!["-v"@, "error"@, "-nostdin"@] + (if head {
        seq!["-t"@, "600"@]
    } else {
        seq!["-sseof"@, "-300"@, "-t"@, "330"@]
    }));
    text::push_text(&mut args, "-i");
    text::push_text(&mut args, path);
    text::push_words(
        &mut args,
        &["-map", "0:a:0", "-ac", "1", "-ar", "11025", "-f", "s16le", "-"],
    );
    assert(text::texts(args@) =~= so_far + seq![
        "-i"@,
        path@,
        "-map"@,
        "0:a:0"@,
        "-ac"@,
        "1"@,
        "-ar"@,
        "11025"@,
        "-f"@,
        "s16le"@,
        "-"@,
    ]);
    args
}

/// The sample that two bytes hold, the low one first.
pub open spec fn sample(low: u8, high: u8) -> int {
    let n = low + 256 * high;
    if n >= 32768 {
        n - 65536
    } else {
        n
    }
}

/// The samples that bytes hold, two bytes each; a byte left over at the end
/// holds none.
pub open spec fn samples(bytes: Seq<u8>) -> Seq<i16> {
    Seq::new(bytes.len() / 2, |i: int| sample(bytes[2 * i], bytes[2 * i + 1]) as i16)
}

pub fn samples_of(bytes: &Vec<u8>) -> (r: Vec<i16>)
    ensures
        r@ == samples(bytes@),
{
    let n: usize = bytes.len() / 2;
    let mut out: Vec<i16> = Vec::new();
    let mut i: usize = 0;
    while i < n
        invariant
            i <= n,
            n == bytes.len() / 2,
            out@ == samples(bytes@).take(i as int),
        decreases n - i,
    {
        let both: i32 = bytes[2 * i] as i32 + 256 * (bytes[2 * i + 1] as i32);
        let signed: i32 = if both >= 32768 {
            both - 65536
        } else {
            both
        };
        out.push(signed as i16);
        i += 1;
        assert(out@ =~= samples(bytes@).take(i as int));
    }
    assert(out@ =~= samples(bytes@));
    out
}

/// How many items the print of samples has: one for each frame of 4096 samples,
/// the frames a third of their length apart, but for the first 19, which the
/// smoothing and the widest filter take.
pub open spec fn print_len(samples: int) -> int {
    let frames = if samples < 4096 {
        0
    } else {
        (samples - 4096) / 1365 + 1
    };
    if frames < 19 {
        0
    } else {
        frames - 19
    }
}

/// `rusty_chromaprint::Fingerprinter` with the `preset_test2` configuration,
/// started for one channel at [`SAMPLE_RATE`], given the samples and finished.
/// It refuses no such start, and there is an item for each frame once the
/// filters are filled. What it computes goes through floating-point transforms
/// that differ between machines, so nothing is claimed of the items
/// themselves.
#[verifier::external_body]
fn chromaprint(samples: &Vec<i16>) -> (r: Option<Vec<u32>>)
    ensures
        r is Some,
        r matches Some(v) ==> v@.len() == print_len(samples@.len() as int),
{
    let config = rusty_chromaprint::Configuration::preset_test2();
    let mut printer = rusty_chromaprint::Fingerprinter::new(&config);
    printer.start(SAMPLE_RATE, 1).ok()?;
    printer.consume(samples);
    printer.finish();
    Some(printer.fingerprint().to_vec())
}

/// The print of a decoded window.
pub fn fingerprint(decoded: &Vec<u8>) -> (r: Option<Vec<u32>>)
    ensures
        r is Some,
        r matches Some(v) ==> v@.len() == print_len(decoded@.len() as int / 2),
{
    let samples = samples_of(decoded);
    chromaprint(&samples)
}

// -------------------------------------------------------------------- laws

proof fn lemma_from(runs: Seq<Run>, i: int)
    requires
        0 <= i < apart(runs).len(),
    ensures
        exists|k: int| 0 <= k < runs.len() && #[trigger] runs[k] == apart(runs)[i],
    decreases runs.len(),
{
    if runs.len() > 0 {
        let head = runs.drop_last();
        if i < apart(head).len() {
            lemma_from(head, i);
            let k = choose|k: int| 0 <= k < head.len() && #[trigger] head[k] == apart(head)[i];
            assert(runs[k] == apart(runs)[i]);
        } else {
            assert(runs[runs.len() - 1] == apart(runs)[i]);
        }
    }
}

proof fn lemma_from_short(runs: Seq<Run>, most: int, i: int)
    requires
        0 <= i < no_longer_than(runs, most).len(),
    ensures
        no_longer_than(runs, most)[i].len <= most,
        exists|k: int| 0 <= k < runs.len() && #[trigger] runs[k] == no_longer_than(runs, most)[i],
    decreases runs.len(),
{
    if runs.len() > 0 {
        let head = runs.drop_last();
        if i < no_longer_than(head, most).len() {
            lemma_from_short(head, most, i);
            let k = choose|k: int|
                0 <= k < head.len() && #[trigger] head[k] == no_longer_than(head, most)[i];
            assert(runs[k] == no_longer_than(runs, most)[i]);
        } else {
            assert(runs[runs.len() - 1] == no_longer_than(runs, most)[i]);
        }
    }
}

/// Every stretch that is found lies in both prints, starts and ends on items
/// that match, is long enough, and is not the better part of the window.
pub proof fn shared_runs_are_fair(a: Seq<u32>, b: Seq<u32>, limits: Limits)
    requires
        held(a),
        held(b),
    ensures
        forall|i: int|
            0 <= i < shared(a, b, limits).len() ==> fair(
                #[trigger] shared(a, b, limits)[i],
                a,
                b,
                limits,
            ) && shared(a, b, limits)[i].len <= limits.longest@[shorter(a, b)],
{
    if a.len() >= 8 && b.len() >= 8 {
        let runs = runs_along_all(a, b, alignments(a, b), limits);
        lemma_alignments(a, b);
        lemma_runs_along_all(a, b, alignments(a, b), limits);
        let o = longest_order(runs);
        lemma_runs_len(a, b, alignments(a, b), limits);
        lemma_top(tally(a, b), TOP_OFFSETS as nat);
        let (m, n) = (alignments(a, b).len() as int, a.len() as int);
        assert(m * n <= 8 * n) by (nonlinear_arith)
            requires
                m <= 8,
                n >= 0,
        ;
        lemma_longest_order(runs);
        let sorted = longest_first(runs);
        let kept = apart(sorted);
        let most = limits.longest@[shorter(a, b)] as int;
        let all = no_longer_than(kept, most);
        assert forall|i: int| 0 <= i < all.len() implies fair(#[trigger] all[i], a, b, limits)
            && all[i].len <= most by {
            lemma_from_short(kept, most, i);
            let k = choose|k: int| 0 <= k < kept.len() && #[trigger] kept[k] == all[i];
            lemma_from(sorted, k);
            let m = choose|m: int| 0 <= m < sorted.len() && #[trigger] sorted[m] == kept[k];
            assert(0 <= o[m] < runs.len());
            assert(fair(runs[o[m] as int], a, b, limits));
        }
    }
}

/// None of the runs is longer than one before it, or lies for the most part
/// where one before it does.
pub open spec fn ranked(runs: Seq<Run>) -> bool {
    forall|i: int, j: int|
        0 <= i < j < runs.len() ==> (#[trigger] runs[j]).len <= (#[trigger] runs[i]).len
            && !mostly_inside(runs[j], runs[i])
}

/// More than half of the items of a run are items of another one: it reaches
/// from one item of the other to another, more than half its length on.
pub open spec fn mostly_inside(run: Run, other: Run) -> bool {
    exists|from: int, to: int|
        #![trigger inside(run, from, to), inside(other, from, to)]
        inside(run, from, to) && inside(other, from, to) && 2 * (to - from) > run.len
}

/// Items `from..to` are items of the run.
pub open spec fn inside(run: Run, from: int, to: int) -> bool {
    run.start <= from < to <= run.start + run.len
}

proof fn lemma_covered(run: Run, other: Run)
    ensures
        covered(run, other) == mostly_inside(run, other),
{
    if covered(run, other) {
        let lo = if run.start > other.start {
            run.start as int
        } else {
            other.start as int
        };
        let hi = if run.start + run.len < other.start + other.len {
            run.start + run.len
        } else {
            other.start + other.len
        };
        assert(inside(run, lo, hi) && inside(other, lo, hi));
    }
}

/// The stretches that two prints share come longest first, and no two of them
/// cover the same region: of those that would, the longest is the one there.
pub proof fn shared_runs_are_ranked(a: Seq<u32>, b: Seq<u32>, limits: Limits)
    requires
        held(a),
        held(b),
    ensures
        ranked(shared(a, b, limits)),
{
    if a.len() >= 8 && b.len() >= 8 {
        let runs = runs_along_all(a, b, alignments(a, b), limits);
        lemma_alignments(a, b);
        lemma_runs_along_all(a, b, alignments(a, b), limits);
        lemma_runs_len(a, b, alignments(a, b), limits);
        lemma_top(tally(a, b), TOP_OFFSETS as nat);
        let (m, n) = (alignments(a, b).len() as int, a.len() as int);
        assert(m * n <= 8 * n) by (nonlinear_arith)
            requires
                m <= 8,
                n >= 0,
        ;
        lemma_longest_order(runs);
        let o = longest_order(runs);
        let sorted = longest_first(runs);
        assert forall|i: int, j: int| 0 <= i < j < sorted.len() implies (#[trigger] sorted[j]).len
            <= (#[trigger] sorted[i]).len by {
            assert(order::number_first(backward(runs), o[i] as int, o[j] as int));
            assert(fair(runs[o[i] as int], a, b, limits));
            assert(fair(runs[o[j] as int], a, b, limits));
        }
        lemma_apart_ranked(sorted);
        lemma_short_ranked(apart(sorted), limits.longest@[shorter(a, b)] as int);
    }
}

proof fn lemma_apart_ranked(runs: Seq<Run>)
    requires
        forall|i: int, j: int|
            0 <= i < j < runs.len() ==> (#[trigger] runs[j]).len <= (#[trigger] runs[i]).len,
    ensures
        ranked(apart(runs)),
    decreases runs.len(),
{
    if runs.len() > 0 {
        let head = runs.drop_last();
        let kept = apart(head);
        lemma_apart_ranked(head);
        assert forall|i: int| 0 <= i < kept.len() implies runs.last().len <= (
        #[trigger] kept[i]).len by {
            lemma_from(head, i);
            let m = choose|m: int| 0 <= m < head.len() && #[trigger] head[m] == kept[i];
            assert(runs[m] == head[m]);
            assert(runs[runs.len() - 1].len <= runs[m].len);
        }
        let all = apart(runs);
        assert forall|i: int, j: int| 0 <= i < j < all.len() implies (#[trigger] all[j]).len <= (
        #[trigger] all[i]).len && !mostly_inside(all[j], all[i]) by {
            lemma_covered(all[j], all[i]);
            assert(all[i] == kept[i]);
            if j < kept.len() {
                assert(!mostly_inside(kept[j], kept[i]));
            }
        }
    }
}

proof fn lemma_short_ranked(runs: Seq<Run>, most: int)
    requires
        ranked(runs),
    ensures
        ranked(no_longer_than(runs, most)),
    decreases runs.len(),
{
    if runs.len() > 0 {
        let head = runs.drop_last();
        let kept = no_longer_than(head, most);
        lemma_short_ranked(head, most);
        assert forall|i: int| 0 <= i < kept.len() implies runs.last().len <= (
        #[trigger] kept[i]).len && !mostly_inside(runs.last(), kept[i]) by {
            lemma_from_short(head, most, i);
            let m = choose|m: int| 0 <= m < head.len() && #[trigger] head[m] == kept[i];
            assert(runs[m] == head[m]);
            assert(runs[runs.len() - 1].len <= runs[m].len);
        }
    }
}

proof fn lemma_walk_len(a: Seq<u32>, b: Seq<u32>, offset: int, limits: Limits, n: int)
    requires
        0 <= n,
    ensures
        ({
            let w = walk(a, b, offset, limits, n);
            w.runs.len() + (if w.open is Some {
                1int
            } else {
                0int
            }) <= n
        }),
    decreases n,
{
    if n > overlap_start(offset) {
        lemma_walk_len(a, b, offset, limits, n - 1);
    }
}

proof fn lemma_runs_len(a: Seq<u32>, b: Seq<u32>, offsets: Seq<int>, limits: Limits)
    ensures
        runs_along_all(a, b, offsets, limits).len() <= offsets.len() * a.len(),
    decreases offsets.len(),
{
    if offsets.len() > 0 {
        lemma_runs_len(a, b, offsets.drop_last(), limits);
        lemma_walk_len(
            a,
            b,
            offsets.last(),
            limits,
            overlap_end(a, b, offsets.last()),
        );
        let m = (offsets.len() - 1) as int;
        let n = a.len() as int;
        assert((m + 1) * n == m * n + n) by (nonlinear_arith);
    }
}

/// Two episodes agree on what they share: where one of them has a stretch in
/// common with the other, the other has one of the same length with it, and
/// two files of one episode have none.
pub proof fn sharing_is_mutual(
    episodes: Seq<Episode>,
    limits: Limits,
    k: int,
    o: int,
    heads: bool,
)
    ensures
        ({
            let x = shared_with(episodes, limits, k, o, heads);
            let y = shared_with(episodes, limits, o, k, heads);
            &&& x.len() == y.len() <= 1
            &&& x.len() == 1 ==> x[0].1 == y[0].1
            &&& episodes[k].episode == episodes[o].episode ==> x.len() == 0
        }),
{
}

/// There is an order that puts the longest first.
proof fn lemma_longest_order(runs: Seq<Run>)
    requires
        runs.len() <= usize::MAX,
    ensures
        order::sorts_numbers(longest_order(runs), backward(runs), runs.len() as int),
{
    order::lemma_sortable(backward(runs));
}

/// The print that is matched: of the head, or of the tail.
pub open spec fn window(e: Episode, heads: bool) -> Seq<u32> {
    if heads {
        e.head@
    } else {
        e.tail@
    }
}

/// Run `i` is the longest of the runs that can serve: an intro has to begin
/// early enough on both sides.
pub open spec fn longest_serving(
    runs: Seq<Run>,
    x: Episode,
    y: Episode,
    heads: bool,
    i: int,
) -> bool {
    &&& 0 <= i < runs.len()
    &&& serves(runs[i], x, y, heads)
    &&& forall|j: int|
        0 <= j < runs.len() && serves(#[trigger] runs[j], x, y, heads) ==> runs[j].len
            <= runs[i].len
}

pub open spec fn serves(run: Run, x: Episode, y: Episode, heads: bool) -> bool {
    heads ==> run.start < x.intro_limit && run.start - run.offset < y.intro_limit
}

/// Where two different episodes have stretches in common, each of them gets
/// the longest: of the tails the longest of all, of the heads the longest that
/// begins within the intro limits of both.
pub proof fn the_longest_stretch_is_taken(
    episodes: Seq<Episode>,
    limits: Limits,
    k: int,
    o: int,
    heads: bool,
)
    requires
        season_fits(episodes, limits),
        0 <= k < o < episodes.len(),
        episodes[k].episode != episodes[o].episode,
    ensures
        ({
            let (x, y) = (episodes[k], episodes[o]);
            let runs = shared(window(x, heads), window(y, heads), limits);
            let n = episodes.len() as int;
            (exists|j: int| 0 <= j < runs.len() && serves(#[trigger] runs[j], x, y, heads))
                ==> exists|i: int| #[trigger]
                longest_serving(runs, x, y, heads, i) && shares(episodes, limits, k, n, heads).contains(
                    (runs[i].start, runs[i].len),
                ) && shares(episodes, limits, o, n, heads).contains(
                    ((runs[i].start - runs[i].offset) as usize, runs[i].len),
                )
        }),
{
    let (x, y) = (episodes[k], episodes[o]);
    let (a, b) = (window(x, heads), window(y, heads));
    let runs = shared(a, b, limits);
    let n = episodes.len() as int;
    shared_runs_are_ranked(a, b, limits);
    if exists|j: int| 0 <= j < runs.len() && serves(#[trigger] runs[j], x, y, heads) {
        let j = choose|j: int| 0 <= j < runs.len() && serves(#[trigger] runs[j], x, y, heads);
        let i = if heads {
            first_intro(runs, x, y)
        } else {
            0
        };
        if heads {
            lemma_first_intro_is(runs, x, y, j);
        }
        assert(longest_serving(runs, x, y, heads, i)) by {
            assert forall|j: int|
                0 <= j < runs.len() && serves(#[trigger] runs[j], x, y, heads) implies runs[j].len
                <= runs[i].len by {
                if heads {
                    lemma_first_intro_is(runs, x, y, j);
                }
                if i < j {
                    assert(runs[j].len <= runs[i].len);
                }
            }
        }
        let p = shared_with(episodes, limits, k, o, heads);
        let q = shared_with(episodes, limits, o, k, heads);
        assert(p[0] == (runs[i].start, runs[i].len));
        assert(q[0] == ((runs[i].start - runs[i].offset) as usize, runs[i].len));
        lemma_shares_hold(episodes, limits, k, n, heads, o);
        lemma_shares_hold(episodes, limits, o, n, heads, k);
    }
}

proof fn lemma_first_intro_is(runs: Seq<Run>, x: Episode, y: Episode, j: int)
    requires
        0 <= j < runs.len(),
        serves(runs[j], x, y, true),
    ensures
        0 <= first_intro(runs, x, y) <= j,
        serves(runs[first_intro(runs, x, y)], x, y, true),
    decreases runs.len(),
{
    if !serves(runs[0], x, y, true) {
        let rest = runs.drop_first();
        assert(rest[j - 1] == runs[j]);
        lemma_first_intro_is(rest, x, y, j - 1);
        assert(rest[first_intro(rest, x, y)] == runs[first_intro(rest, x, y) + 1]);
    }
}

proof fn lemma_shares_hold(
    episodes: Seq<Episode>,
    limits: Limits,
    k: int,
    n: int,
    heads: bool,
    o: int,
)
    requires
        0 <= o < n,
    ensures
        forall|i: int|
            0 <= i < shared_with(episodes, limits, k, o, heads).len() ==> shares(
                episodes,
                limits,
                k,
                n,
                heads,
            ).contains(#[trigger] shared_with(episodes, limits, k, o, heads)[i]),
    decreases n,
{
    let head = shares(episodes, limits, k, n - 1, heads);
    let here = shared_with(episodes, limits, k, n - 1, heads);
    let all = shares(episodes, limits, k, n, heads);
    let one = shared_with(episodes, limits, k, o, heads);
    if o < n - 1 {
        lemma_shares_hold(episodes, limits, k, n - 1, heads, o);
    }
    assert forall|i: int| 0 <= i < one.len() implies all.contains(#[trigger] one[i]) by {
        if o < n - 1 {
            let p = choose|p: int| 0 <= p < head.len() && head[p] == one[i];
            assert(all[p] == one[i]);
        } else {
            assert(all[head.len() + i] == one[i]);
        }
    }
}

/// Every stretch that an episode gets is the longest that serves of those it
/// has in common with some other episode.
pub proof fn stretches_are_in_common(
    episodes: Seq<Episode>,
    limits: Limits,
    k: int,
    n: int,
    heads: bool,
    p: int,
)
    requires
        season_fits(episodes, limits),
        0 <= k < episodes.len(),
        0 <= n <= episodes.len(),
        0 <= p < shares(episodes, limits, k, n, heads).len(),
    ensures
        exists|o: int, i: int| #[trigger]
            taken_from(episodes, limits, k, o, heads, i) && 0 <= o < n && shares(
                episodes,
                limits,
                k,
                n,
                heads,
            )[p] == ({
                let (x, y) = if k < o {
                    (episodes[k], episodes[o])
                } else {
                    (episodes[o], episodes[k])
                };
                let run = shared(window(x, heads), window(y, heads), limits)[i];
                if k < o {
                    (run.start, run.len)
                } else {
                    ((run.start - run.offset) as usize, run.len)
                }
            }),
    decreases n,
{
    let head = shares(episodes, limits, k, n - 1, heads);
    if p < head.len() {
        stretches_are_in_common(episodes, limits, k, n - 1, heads, p);
    } else {
        let o = n - 1;
        let (x, y) = if k < o {
            (episodes[k], episodes[o])
        } else {
            (episodes[o], episodes[k])
        };
        let runs = shared(window(x, heads), window(y, heads), limits);
        shared_runs_are_ranked(window(x, heads), window(y, heads), limits);
        let i = if heads {
            first_intro(runs, x, y)
        } else {
            0
        };
        if heads {
            lemma_first_intro_end(runs, x, y);
        }
        assert(longest_serving(runs, x, y, heads, i)) by {
            assert forall|j: int|
                0 <= j < runs.len() && serves(#[trigger] runs[j], x, y, heads) implies runs[j].len
                <= runs[i].len by {
                if heads {
                    lemma_first_intro_is(runs, x, y, j);
                }
                if i < j {
                    assert(runs[j].len <= runs[i].len);
                }
            }
        }
        assert(taken_from(episodes, limits, k, o, heads, i));
    }
}

proof fn lemma_first_intro_end(runs: Seq<Run>, x: Episode, y: Episode)
    ensures
        0 <= first_intro(runs, x, y) <= runs.len(),
        first_intro(runs, x, y) < runs.len() ==> serves(
            runs[first_intro(runs, x, y)],
            x,
            y,
            true,
        ),
    decreases runs.len(),
{
    if runs.len() > 0 && !serves(runs[0], x, y, true) {
        let rest = runs.drop_first();
        lemma_first_intro_end(rest, x, y);
        if first_intro(rest, x, y) < rest.len() {
            assert(rest[first_intro(rest, x, y)] == runs[first_intro(rest, x, y) + 1]);
        }
    }
}

/// Run `i` of two different episodes' common runs is the longest that serves.
pub open spec fn taken_from(
    episodes: Seq<Episode>,
    limits: Limits,
    k: int,
    o: int,
    heads: bool,
    i: int,
) -> bool {
    let (x, y) = if k < o {
        (episodes[k], episodes[o])
    } else {
        (episodes[o], episodes[k])
    };
    &&& 0 <= o < episodes.len()
    &&& x.episode != y.episode
    &&& longest_serving(shared(window(x, heads), window(y, heads), limits), x, y, heads, i)
}

/// Items `from..from + n` of a print match those of another at `offset`, and
/// around them, as far as a gap may reach, none does.
pub open spec fn stands_out(
    a: Seq<u32>,
    b: Seq<u32>,
    offset: int,
    limits: Limits,
    from: int,
    n: int,
) -> bool {
    &&& 0 < n
    &&& 0 <= from && offset <= from
    &&& from + n <= a.len() && from + n - offset <= b.len()
    &&& forall|i: int| from <= i < from + n ==> ones(#[trigger] a[i] ^ b[i - offset]) <= 8
    &&& forall|i: int|
        0 <= i < a.len() && 0 <= i - offset < b.len() && (from - limits.gap_items - 1 <= i < from
            || from + n <= i <= from + n + limits.gap_items) ==> ones(
            #[trigger] a[i] ^ b[i - offset],
        ) > 8
}

/// A stretch of matching items that stands out along an alignment is found,
/// where it is long enough.
pub proof fn matching_stretches_are_found(
    a: Seq<u32>,
    b: Seq<u32>,
    offset: int,
    limits: Limits,
    from: int,
    n: int,
)
    requires
        stands_out(a, b, offset, limits, from, n),
        n >= limits.min_items,
        n >= limits.least_matched@[n],
        held(a),
        held(b),
        -b.len() <= offset < a.len(),
    ensures
        runs_along(a, b, offset, limits).contains(
            Run { start: from as usize, len: n as usize, offset: offset as isize },
        ),
{
    let end = overlap_end(a, b, offset);
    lemma_closed_by(a, b, offset, limits, from);
    lemma_open_through(a, b, offset, limits, from, n);
    lemma_kept_run(a, b, offset, limits, from, n, end);
}

proof fn lemma_walk_open(a: Seq<u32>, b: Seq<u32>, offset: int, limits: Limits, n: int)
    requires
        0 <= n <= overlap_end(a, b, offset),
    ensures
        match walk(a, b, offset, limits, n).open {
            Some((s, l, m)) => {
                &&& overlap_start(offset) <= s <= l < n
                &&& alike(a[l], b[l - offset])
                &&& n - 1 - l <= limits.gap_items
                &&& m >= 1
            },
            None => true,
        },
    decreases n,
{
    if n > overlap_start(offset) {
        lemma_walk_open(a, b, offset, limits, n - 1);
    }
}

/// Nothing is open in front of a stretch that stands out.
proof fn lemma_closed_by(a: Seq<u32>, b: Seq<u32>, offset: int, limits: Limits, from: int)
    requires
        0 <= from <= overlap_end(a, b, offset),
        offset <= from,
        forall|i: int|
            0 <= i < a.len() && 0 <= i - offset < b.len() && from - limits.gap_items - 1 <= i < from
                ==> ones(#[trigger] a[i] ^ b[i - offset]) > 8,
    ensures
        walk(a, b, offset, limits, from).open is None,
{
    lemma_walk_open(a, b, offset, limits, from);
    if let Some((s, l, m)) = walk(a, b, offset, limits, from).open {
        assert(ones(a[l] ^ b[l - offset]) > 8);
    }
}

/// A stretch of matching items is one open run.
proof fn lemma_open_through(
    a: Seq<u32>,
    b: Seq<u32>,
    offset: int,
    limits: Limits,
    from: int,
    n: int,
)
    requires
        0 < n,
        overlap_start(offset) <= from,
        from + n <= overlap_end(a, b, offset),
        walk(a, b, offset, limits, from).open is None,
        forall|i: int| from <= i < from + n ==> ones(#[trigger] a[i] ^ b[i - offset]) <= 8,
    ensures
        walk(a, b, offset, limits, from + n).open == Some((from, from + n - 1, n)),
        walk(a, b, offset, limits, from + n).runs == walk(a, b, offset, limits, from).runs,
    decreases n,
{
    assert(ones(a[from + n - 1] ^ b[from + n - 1 - offset]) <= 8);
    if n > 1 {
        lemma_open_through(a, b, offset, limits, from, n - 1);
    }
}

/// What follows a stretch that stands out closes its run, and keeps it.
proof fn lemma_kept_run(
    a: Seq<u32>,
    b: Seq<u32>,
    offset: int,
    limits: Limits,
    from: int,
    n: int,
    end: int,
)
    requires
        stands_out(a, b, offset, limits, from, n),
        n >= limits.min_items,
        n >= limits.least_matched@[n],
        from + n <= end <= overlap_end(a, b, offset),
        walk(a, b, offset, limits, from + n).open == Some((from, from + n - 1, n)),
    ensures
        ({
            let w = walk(a, b, offset, limits, end);
            let run = Run { start: from as usize, len: n as usize, offset: offset as isize };
            &&& end <= from + n + limits.gap_items ==> w.open == Some((from, from + n - 1, n))
            &&& end > from + n + limits.gap_items ==> w.runs.contains(run)
            &&& closed(w, offset, limits).runs.contains(run)
        }),
    decreases end,
{
    let run = Run { start: from as usize, len: n as usize, offset: offset as isize };
    let w = walk(a, b, offset, limits, end);
    if end > from + n {
        lemma_kept_run(a, b, offset, limits, from, n, end - 1);
        let before = walk(a, b, offset, limits, end - 1);
        let i = end - 1;
        if end - 1 <= from + n + limits.gap_items {
            assert(ones(a[i] ^ b[i - offset]) > 8);
            if end > from + n + limits.gap_items {
                assert(w == closed(before, offset, limits));
                assert(w.runs[w.runs.len() - 1] == run);
            }
        } else {
            let p = choose|p: int| 0 <= p < before.runs.len() && before.runs[p] == run;
            assert(w.runs[p] == run);
        }
    }
    let c = closed(w, offset, limits);
    if end <= from + n + limits.gap_items {
        assert(c.runs[c.runs.len() - 1] == run);
    } else {
        let p = choose|p: int| 0 <= p < w.runs.len() && w.runs[p] == run;
        assert(c.runs[p] == run);
    }
}

/// Nothing that two prints have in common is lost but to a longer stretch of
/// the same region: where no run is too long, each run along one of the
/// candidate alignments is there, or one at least as long that most of it lies
/// in.
pub proof fn common_stretches_are_kept(
    a: Seq<u32>,
    b: Seq<u32>,
    limits: Limits,
    at: int,
    k: int,
)
    requires
        held(a),
        held(b),
        a.len() >= 8,
        b.len() >= 8,
        0 <= at < alignments(a, b).len(),
        0 <= k < runs_along(a, b, alignments(a, b)[at], limits).len(),
        forall|o: int, j: int|
            0 <= o < alignments(a, b).len() && 0 <= j < runs_along(
                a,
                b,
                alignments(a, b)[o],
                limits,
            ).len() ==> (#[trigger] runs_along(a, b, alignments(a, b)[o], limits)[j]).len
                <= limits.longest@[if a.len() < b.len() {
                a.len() as int
            } else {
                b.len() as int
            }],
    ensures
        ({
            let run = runs_along(a, b, alignments(a, b)[at], limits)[k];
            exists|i: int|
                0 <= i < shared(a, b, limits).len() && ((#[trigger] shared(a, b, limits)[i]) == run
                    || (shared(a, b, limits)[i].len >= run.len && mostly_inside(
                    run,
                    shared(a, b, limits)[i],
                )))
        }),
{
    let runs = runs_along_all(a, b, alignments(a, b), limits);
    let run = runs_along(a, b, alignments(a, b)[at], limits)[k];
    lemma_alignments(a, b);
    lemma_runs_along_all(a, b, alignments(a, b), limits);
    lemma_runs_len(a, b, alignments(a, b), limits);
    lemma_top(tally(a, b), TOP_OFFSETS as nat);
    let (m, n) = (alignments(a, b).len() as int, a.len() as int);
    assert(m * n <= 8 * n) by (nonlinear_arith)
        requires
            m <= 8,
            n >= 0,
    ;
    lemma_longest_order(runs);
    let o = longest_order(runs);
    let sorted = longest_first(runs);
    let most = limits.longest@[shorter(a, b)] as int;
    lemma_along_all(a, b, alignments(a, b), limits, at, k);
    let q = choose|q: int| 0 <= q < runs.len() && #[trigger] runs[q] == run;
    order::lemma_listed(o, backward(runs), runs.len() as int, q);
    let s = choose|s: int| 0 <= s < o.len() && #[trigger] o[s] == q;
    assert(sorted[s] == run);
    assert forall|i: int, j: int| 0 <= i < j < sorted.len() implies (#[trigger] sorted[j]).len <= (
    #[trigger] sorted[i]).len by {
        assert(order::number_first(backward(runs), o[i] as int, o[j] as int));
        assert(fair(runs[o[i] as int], a, b, limits));
        assert(fair(runs[o[j] as int], a, b, limits));
    }
    lemma_kept_or_covered(sorted, s);
    let kept = apart(sorted);
    let e = choose|e: int|
        0 <= e < kept.len() && (#[trigger] kept[e] == run || (kept[e].len >= run.len && covered(
            run,
            kept[e],
        )));
    lemma_from(sorted, e);
    let f = choose|f: int| 0 <= f < sorted.len() && #[trigger] sorted[f] == kept[e];
    lemma_some_alignment(a, b, alignments(a, b), limits, o[f] as int);
    let (x, y) = choose|x: int, y: int|
        0 <= x < alignments(a, b).len() && 0 <= y < runs_along(
            a,
            b,
            alignments(a, b)[x],
            limits,
        ).len() && #[trigger] runs_along(a, b, alignments(a, b)[x], limits)[y] == runs[o[f] as int];
    assert(kept[e].len <= most);
    lemma_covered(run, kept[e]);
    lemma_short_kept(kept, most, e);
    let i = choose|i: int|
        0 <= i < no_longer_than(kept, most).len() && #[trigger] no_longer_than(kept, most)[i]
            == kept[e];
    assert(shared(a, b, limits)[i] == kept[e]);
}

proof fn lemma_along_all(
    a: Seq<u32>,
    b: Seq<u32>,
    offsets: Seq<int>,
    limits: Limits,
    at: int,
    k: int,
)
    requires
        0 <= at < offsets.len(),
        0 <= k < runs_along(a, b, offsets[at], limits).len(),
    ensures
        exists|q: int|
            0 <= q < runs_along_all(a, b, offsets, limits).len() && #[trigger] runs_along_all(
                a,
                b,
                offsets,
                limits,
            )[q] == runs_along(a, b, offsets[at], limits)[k],
    decreases offsets.len(),
{
    let head = runs_along_all(a, b, offsets.drop_last(), limits);
    let all = runs_along_all(a, b, offsets, limits);
    let run = runs_along(a, b, offsets[at], limits)[k];
    if at < offsets.len() - 1 {
        assert(offsets.drop_last()[at] == offsets[at]);
        lemma_along_all(a, b, offsets.drop_last(), limits, at, k);
        let q = choose|q: int| 0 <= q < head.len() && #[trigger] head[q] == run;
        assert(all[q] == run);
    } else {
        assert(all[head.len() + k] == run);
    }
}

proof fn lemma_some_alignment(
    a: Seq<u32>,
    b: Seq<u32>,
    offsets: Seq<int>,
    limits: Limits,
    q: int,
)
    requires
        0 <= q < runs_along_all(a, b, offsets, limits).len(),
    ensures
        exists|x: int, y: int|
            0 <= x < offsets.len() && 0 <= y < runs_along(a, b, offsets[x], limits).len()
                && #[trigger] runs_along(a, b, offsets[x], limits)[y] == runs_along_all(
                a,
                b,
                offsets,
                limits,
            )[q],
    decreases offsets.len(),
{
    if offsets.len() > 0 {
        let head = runs_along_all(a, b, offsets.drop_last(), limits);
        let all = runs_along_all(a, b, offsets, limits);
        if q < head.len() {
            lemma_some_alignment(a, b, offsets.drop_last(), limits, q);
            let (x, y) = choose|x: int, y: int|
                0 <= x < offsets.drop_last().len() && 0 <= y < runs_along(
                    a,
                    b,
                    offsets.drop_last()[x],
                    limits,
                ).len() && #[trigger] runs_along(a, b, offsets.drop_last()[x], limits)[y]
                    == head[q];
            assert(offsets.drop_last()[x] == offsets[x]);
            assert(runs_along(a, b, offsets[x], limits)[y] == all[q]);
        } else {
            let x = offsets.len() - 1;
            assert(runs_along(a, b, offsets[x], limits)[q - head.len()] == all[q]);
        }
    }
}

/// A run is kept, or most of it lies where one kept before it does.
proof fn lemma_kept_or_covered(runs: Seq<Run>, s: int)
    requires
        0 <= s < runs.len(),
        forall|i: int, j: int|
            0 <= i < j < runs.len() ==> (#[trigger] runs[j]).len <= (#[trigger] runs[i]).len,
    ensures
        exists|e: int|
            0 <= e < apart(runs).len() && (#[trigger] apart(runs)[e] == runs[s] || (apart(
                runs,
            )[e].len >= runs[s].len && covered(runs[s], apart(runs)[e]))),
    decreases runs.len(),
{
    let head = runs.drop_last();
    let kept = apart(head);
    let all = apart(runs);
    if s < runs.len() - 1 {
        assert(head[s] == runs[s]);
        lemma_kept_or_covered(head, s);
        let e = choose|e: int|
            0 <= e < kept.len() && (#[trigger] kept[e] == runs[s] || (kept[e].len >= runs[s].len
                && covered(runs[s], kept[e])));
        assert(all[e] == kept[e]);
    } else if covered_by_any(runs.last(), kept) {
        let e = choose|e: int| 0 <= e < kept.len() && covered(runs.last(), #[trigger] kept[e]);
        lemma_from(head, e);
        let m = choose|m: int| 0 <= m < head.len() && #[trigger] head[m] == kept[e];
        assert(runs[m] == head[m]);
        assert(runs[s].len <= runs[m].len);
        assert(all[e] == kept[e]);
    } else {
        assert(all[all.len() - 1] == runs[s]);
    }
}

proof fn lemma_short_kept(runs: Seq<Run>, most: int, e: int)
    requires
        0 <= e < runs.len(),
        runs[e].len <= most,
    ensures
        exists|i: int|
            0 <= i < no_longer_than(runs, most).len() && #[trigger] no_longer_than(runs, most)[i]
                == runs[e],
    decreases runs.len(),
{
    let all = no_longer_than(runs, most);
    let head = no_longer_than(runs.drop_last(), most);
    if e < runs.len() - 1 {
        assert(runs.drop_last()[e] == runs[e]);
        lemma_short_kept(runs.drop_last(), most, e);
        let i = choose|i: int| 0 <= i < head.len() && #[trigger] head[i] == runs[e];
        assert(all[i] == runs[e]);
    } else {
        assert(all[all.len() - 1] == runs[e]);
    }
}

/// The alignments that are walked have the most votes: each has at least ten,
/// and one with that many is passed over only where eight others have no fewer.
pub proof fn the_most_voted_alignments_are_walked(a: Seq<u32>, b: Seq<u32>, offset: int)
    requires
        held(a),
        held(b),
        -b.len() <= offset < a.len(),
    ensures
        ({
            let walked = alignments(a, b);
            let support = |o: int| votes(a, b, o, b.len() as int);
            &&& walked.len() <= 8
            &&& walked.contains(offset) ==> support(offset) >= 10
            &&& support(offset) >= 10 && !walked.contains(offset) ==> walked.len() == 8 && forall|
                i: int,
            |
                0 <= i < walked.len() ==> support(#[trigger] walked[i]) >= support(offset)
        }),
{
    let t = tally(a, b);
    let places = top(t, TOP_OFFSETS as nat);
    let p = offset + b.len();
    assert forall|k: int| 0 <= k < t.len() implies (#[trigger] t[k]) == votes(
        a,
        b,
        k - b.len(),
        b.len() as int,
    ) by {
        lemma_votes(a, b, k - b.len(), b.len() as int);
    }
    lemma_top(t, TOP_OFFSETS as nat);
    lemma_top_votes(t, TOP_OFFSETS as nat, p);
    let walked = alignments(a, b);
    if walked.contains(offset) {
        let i = choose|i: int| 0 <= i < walked.len() && walked[i] == offset;
        assert(places[i] == p);
        assert(places.contains(p));
    } else if votes(a, b, offset, b.len() as int) >= 10 {
        if places.contains(p) {
            let i = choose|i: int| 0 <= i < places.len() && places[i] == p;
            assert(walked[i] == offset);
        }
        assert forall|i: int| 0 <= i < walked.len() implies votes(
            a,
            b,
            #[trigger] walked[i],
            b.len() as int,
        ) >= votes(a, b, offset, b.len() as int) by {
            assert(t[places[i]] >= t[p]);
        }
    }
}

proof fn lemma_top_votes(tally: Seq<usize>, n: nat, p: int)
    requires
        0 <= p < tally.len(),
    ensures
        top(tally, n).contains(p) ==> tally[p] >= 10,
        tally[p] >= 10 && !top(tally, n).contains(p) ==> top(tally, n).len() == n && forall|i: int|
            0 <= i < top(tally, n).len() ==> tally[#[trigger] top(tally, n)[i]] >= tally[p],
    decreases n,
{
    lemma_top(tally, n);
    let all = top(tally, n);
    if n > 0 {
        let m = best(tally, tally.len() as int);
        lemma_best(tally, tally.len() as int);
        if tally[m] >= MIN_VOTES {
            let less = tally.update(m, 0);
            let rest = top(less, (n - 1) as nat);
            lemma_top(less, (n - 1) as nat);
            lemma_top_votes(less, (n - 1) as nat, p);
            assert forall|i: int| 0 <= i < rest.len() implies less[#[trigger] rest[i]]
                >= 10 by {
                lemma_top_votes(less, (n - 1) as nat, rest[i]);
                assert(rest.contains(rest[i]));
            }
            if all.contains(p) {
                let i = choose|i: int| 0 <= i < all.len() && all[i] == p;
                if i > 0 {
                    assert(rest[i - 1] == p);
                }
            } else if tally[p] >= 10 {
                assert(all[0] == m);
                assert(p != m);
                if rest.contains(p) {
                    let i = choose|i: int| 0 <= i < rest.len() && rest[i] == p;
                    assert(all[i + 1] == p);
                }
                assert forall|i: int| 0 <= i < all.len() implies tally[#[trigger] all[i]]
                    >= tally[p] by {
                    if i > 0 {
                        assert(all[i] == rest[i - 1]);
                        assert(less[rest[i - 1]] >= less[p]);
                    }
                }
            }
        }
    }
}

/// An alignment's votes are the items of the second print whose top twelve bits
/// are those of the item of the first that they come to stand against, but for
/// items of a sort that is too common in the first to tell anything.
pub proof fn votes_are_agreeing_items(a: Seq<u32>, b: Seq<u32>, offset: int, n: int)
    requires
        0 <= n <= b.len(),
    ensures
        agreeing(a, b, offset, n).finite(),
        votes(a, b, offset, n) == agreeing(a, b, offset, n).len(),
    decreases n,
{
    let s = agreeing(a, b, offset, n);
    if n == 0 {
        assert(s =~= Set::empty());
    } else {
        votes_are_agreeing_items(a, b, offset, n - 1);
        let head = agreeing(a, b, offset, n - 1);
        lemma_alike_items(a, b[n - 1], a.len() as int);
        lemma_prefix(b[n - 1]);
        if 0 <= n - 1 + offset < a.len() {
            lemma_prefix(a[n - 1 + offset]);
        }
        if votes_for(a, b, offset, n - 1) {
            assert(s =~= head.insert(n - 1));
        } else {
            assert(s =~= head);
        }
    }
}

/// The first `n` items of `b` that agree with the items of `a` they stand
/// against.
pub open spec fn agreeing(a: Seq<u32>, b: Seq<u32>, offset: int, n: int) -> Set<int> {
    Set::new(
        |j: int|
            0 <= j < n && 0 <= j + offset < a.len() && a[j + offset] / 0x10_0000 == b[j]
                / 0x10_0000 && alike_items(a, b[j], a.len() as int).len() <= (if a.len() / 32
                > 4 {
                a.len() / 32
            } else {
                4
            }),
    )
}

/// The first `n` items that have the top twelve bits of `x`.
pub open spec fn alike_items(a: Seq<u32>, x: u32, n: int) -> Set<int> {
    Set::new(|i: int| 0 <= i < n && a[i] / 0x10_0000 == x / 0x10_0000)
}

proof fn lemma_prefix(x: u32)
    ensures
        prefix(x) == x / 0x10_0000,
{
    assert(x >> 20u32 == x / 0x10_0000) by (bit_vector);
}

proof fn lemma_alike_items(a: Seq<u32>, x: u32, n: int)
    requires
        0 <= n <= a.len(),
    ensures
        alike_items(a, x, n).finite(),
        alike_items(a, x, n).len() == positions(a, prefix(x), n).len(),
    decreases n,
{
    let s = alike_items(a, x, n);
    if n == 0 {
        assert(s =~= Set::empty());
    } else {
        lemma_alike_items(a, x, n - 1);
        lemma_prefix(x);
        lemma_prefix(a[n - 1]);
        let head = alike_items(a, x, n - 1);
        if a[n - 1] / 0x10_0000 == x / 0x10_0000 {
            assert(s =~= head.insert(n - 1));
        } else {
            assert(s =~= head);
        }
    }
}

/// The values that are at most `v`, by their places.
pub open spec fn up_to(values: Seq<i64>, v: i64) -> Set<int> {
    Set::new(|i: int| 0 <= i < values.len() && values[i] <= v)
}

/// The values that are at least `v`, by their places.
pub open spec fn down_to(values: Seq<i64>, v: i64) -> Set<int> {
    Set::new(|i: int| 0 <= i < values.len() && values[i] >= v)
}

/// A median is one of the values; more than half of them are no larger, and at
/// least half are no smaller.
pub proof fn medians_are_in_the_middle(values: Seq<i64>)
    requires
        0 < values.len() <= usize::MAX,
    ensures
        values.contains(median(values)),
        2 * up_to(values, median(values)).len() > values.len(),
        2 * down_to(values, median(values)).len() >= values.len(),
{
    let n = values.len() as int;
    let o = choose|o: Seq<usize>| order::sorts_numbers(o, values, n);
    order::lemma_sortable(values);
    let h = n / 2;
    let v = median(values);
    assert(values[o[h] as int] == v);
    let low = Seq::new((h + 1) as nat, |i: int| o[i] as int);
    let high = Seq::new((n - h) as nat, |i: int| o[h + i] as int);
    assert(low.no_duplicates()) by {
        assert forall|i: int, j: int| 0 <= i < low.len() && 0 <= j < low.len() && i != j implies low[i]
            != low[j] by {
            if i < j {
                assert(order::number_first(values, o[i] as int, o[j] as int));
            } else {
                assert(order::number_first(values, o[j] as int, o[i] as int));
            }
        }
    }
    assert(high.no_duplicates()) by {
        assert forall|i: int, j: int|
            0 <= i < high.len() && 0 <= j < high.len() && i != j implies high[i] != high[j] by {
            if i < j {
                assert(order::number_first(values, o[h + i] as int, o[h + j] as int));
            } else {
                assert(order::number_first(values, o[h + j] as int, o[h + i] as int));
            }
        }
    }
    low.unique_seq_to_set();
    high.unique_seq_to_set();
    vstd::set_lib::lemma_int_range(0, n);
    let all = vstd::set_lib::set_int_range(0, n);
    assert(up_to(values, v).subset_of(all));
    assert(down_to(values, v).subset_of(all));
    vstd::set_lib::lemma_len_subset(up_to(values, v), all);
    vstd::set_lib::lemma_len_subset(down_to(values, v), all);
    assert(low.to_set().subset_of(up_to(values, v))) by {
        assert forall|x: int| low.to_set().contains(x) implies up_to(values, v).contains(x) by {
            let i = choose|i: int| 0 <= i < low.len() && low[i] == x;
            if i < h {
                assert(order::number_first(values, o[i] as int, o[h] as int));
            }
        }
    }
    assert(high.to_set().subset_of(down_to(values, v))) by {
        assert forall|x: int| high.to_set().contains(x) implies down_to(values, v).contains(x) by {
            let i = choose|i: int| 0 <= i < high.len() && high[i] == x;
            if i > 0 {
                assert(order::number_first(values, o[h] as int, o[h + i] as int));
            }
        }
    }
    vstd::set_lib::lemma_len_subset(low.to_set(), up_to(values, v));
    vstd::set_lib::lemma_len_subset(high.to_set(), down_to(values, v));
}

} // verus!

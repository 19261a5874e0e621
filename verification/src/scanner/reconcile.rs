//! A full pass over one root: what is new or changed, what is extracted
//! again, and what left the disk.
use vstd::prelude::*;
use crate::db::mime;
use crate::db::models::MediaKind;
use crate::db::queries::files::KnownFile;
use crate::paths;
use crate::scanner::extract;
use crate::text;

verus! {

/// An extension as it is looked up: in lower case, ASCII letters first.
pub open spec fn extension_key(e: Seq<char>) -> Seq<char> {
    text::lowered(text::ascii_lower(e))
}

pub open spec fn mime_of(kind: MediaKind, path: Seq<char>) -> Option<Seq<char>> {
    match paths::extension_of(extract::name_of(path)) {
        Some(e) => mime::looked_up(mime::extensions(kind != MediaKind::Music), extension_key(e)),
        None => None,
    }
}

pub open spec fn opt_str(o: Option<&'static str>) -> Option<Seq<char>> {
    match o {
        Some(s) => Some(s@),
        None => None,
    }
}

fn name_in(path: &str) -> (r: String)
    ensures
        r@ == extract::name_of(path@),
{
    match text::rsplit_once(path, "/") {
        Some((_, name)) => name,
        None => path.to_owned(),
    }
}

/// Recognized media file under a root of this kind? Returns its MIME type.
pub fn media_mime(kind: MediaKind, path: &str) -> (r: Option<&'static str>)
    ensures
        opt_str(r) == mime_of(kind, path@),
{
    let name = name_in(path);
    match paths::extension(name.as_str()) {
        Some(e) => {
            let e = text::to_ascii_lowercase(e.as_str());
            let e = text::to_lowercase(e.as_str());
            mime::mime_for_extension(e.as_str(), kind.is_video())
        },
        None => None,
    }
}

/// Names that a walk passes over, with all that is below them.
pub fn is_hidden(name: &str) -> (r: bool)
    ensures
        r == text::begins(name@, "."@),
{
    text::starts_with(name, ".")
}

/// How long a pass lets a changed file be.
pub const GRACE_MS: u64 = 2_000;

/// Whether a file that changed at `mtime` is still being written at `now`:
/// it changed within the grace period, of one second at least.
pub open spec fn fresh(now: int, mtime: int, grace_ms: int) -> bool {
    now - mtime < (if grace_ms / 1000 > 1 {
        grace_ms / 1000
    } else {
        1
    })
}

/// A file modified within the last `grace_ms` is still being written
/// (network copies stall longer than any size-stability window; mtime age
/// is the reliable signal). Skipped files are picked up by the watcher's
/// post-quiet event or the next reconcile.
pub fn too_fresh(now: i64, mtime: i64, grace_ms: u64) -> (r: bool)
    ensures
        r == fresh(now as int, mtime as int, grace_ms as int),
{
    let secs: u64 = grace_ms / 1000;
    let grace: u64 = if secs > 1 {
        secs
    } else {
        1
    };
    (now as i128) - (mtime as i128) < grace as i128
}

/// A media file that a walk came upon, with the state of its sidecars.
#[derive(Debug)]
pub struct Seen {
    pub rel: String,
    pub size: i64,
    pub mtime: i64,
    pub nfo_mtime: Option<i64>,
    pub edl_mtime: Option<i64>,
    /// The sidecar artwork that is there now.
    pub art: Option<String>,
    /// The newest music.toml above it.
    pub music_mtime: Option<i64>,
}

#[derive(Debug, Clone, Copy, PartialEq, Eq, Structural)]
pub enum Verdict {
    /// Left for a later pass; its row stays.
    StillWritten,
    /// The catalog reflects it.
    Unchanged,
    /// New or changed: recorded as pending, extracted, counted as new media.
    Changed,
    /// Extracted once more, which is not new media.
    Again,
}

/// Embedded art isn't discoverable by stat; only a new sidecar (which takes
/// precedence) matters.
pub open spec fn art_stale(stored: Option<Seq<char>>, found: Option<Seq<char>>) -> bool {
    if stored == Some("embedded"@) {
        found is Some
    } else {
        stored != found
    }
}

fn same_opt(a: &Option<String>, b: &Option<String>) -> (r: bool)
    ensures
        r == (text::opt_text(*a) == text::opt_text(*b)),
{
    match (a, b) {
        (Some(x), Some(y)) => text::same(x.as_str(), y.as_str()),
        (None, None) => true,
        _ => false,
    }
}

pub fn is_art_stale(stored: &Option<String>, found: &Option<String>) -> (r: bool)
    ensures
        r == art_stale(text::opt_text(*stored), text::opt_text(*found)),
{
    let embedded = match stored {
        Some(s) => text::same(s.as_str(), "embedded"),
        None => false,
    };
    if embedded {
        found.is_some()
    } else {
        !same_opt(stored, found)
    }
}

/// What a pass makes of a file, given its row.
pub open spec fn judged(
    kind: MediaKind,
    known: Option<KnownFile>,
    s: Seen,
    now: int,
    grace_ms: int,
) -> Verdict {
    if fresh(now, s.mtime as int, grace_ms) {
        Verdict::StillWritten
    } else {
        match known {
            None => Verdict::Changed,
            Some(kf) => if kf.size != s.size || kf.mtime != s.mtime {
                Verdict::Changed
            } else if kf.status@ != "ready"@ || s.nfo_mtime != kf.nfo_mtime || art_stale(
                text::opt_text(kf.art),
                text::opt_text(s.art),
            ) || (kind != MediaKind::Music && s.edl_mtime != kf.edl_mtime) || (kind
                == MediaKind::Music && (s.music_mtime matches Some(t) && t
                > kf.updated_at)) {
                Verdict::Again
            } else {
                Verdict::Unchanged
            },
        }
    }
}

fn same_time(a: Option<i64>, b: Option<i64>) -> (r: bool)
    ensures
        r == (a == b),
{
    match (a, b) {
        (Some(x), Some(y)) => x == y,
        (None, None) => true,
        _ => false,
    }
}

fn judge(kind: MediaKind, known: Option<&KnownFile>, s: &Seen, now: i64, grace_ms: u64) -> (r:
    Verdict)
    ensures
        r == judged(
            kind,
            match known {
                Some(k) => Some(*k),
                None => None,
            },
            *s,
            now as int,
            grace_ms as int,
        ),
{
    if too_fresh(now, s.mtime, grace_ms) {
        return Verdict::StillWritten;
    }
    match known {
        None => Verdict::Changed,
        Some(kf) => {
            if kf.size != s.size || kf.mtime != s.mtime {
                return Verdict::Changed;
            }
            // Retry files that were pending/errored last time and have been
            // stable since. Not counted as new media: a permanently-failing
            // file must not re-trigger auto-enrichment every reconcile.
            if !text::same(kf.status.as_str(), "ready") {
                return Verdict::Again;
            }
            // A sidecar (.nfo or artwork) appeared, vanished, or changed
            // since extraction.
            if !same_time(s.nfo_mtime, kf.nfo_mtime) || is_art_stale(&kf.art, &s.art) {
                return Verdict::Again;
            }
            // So did the .edl, whose segments are of video files.
            if kind != MediaKind::Music && !same_time(s.edl_mtime, kf.edl_mtime) {
                return Verdict::Again;
            }
            // A directory music.toml changed after this track was extracted.
            if kind == MediaKind::Music {
                if let Some(t) = s.music_mtime {
                    if t > kf.updated_at {
                        return Verdict::Again;
                    }
                }
            }
            Verdict::Unchanged
        },
    }
}

/// A file to extract.
#[derive(Debug, Clone, Copy, PartialEq, Eq, Structural)]
pub struct Step {
    /// Which of the files seen.
    pub seen: usize,
    /// Its row, where it has one.
    pub id: Option<i64>,
    /// Whether it is first recorded as pending, at its size and time.
    pub upsert: bool,
}

/// The row of a path.
pub open spec fn row_of(known: Seq<(String, KnownFile)>, rel: Seq<char>) -> Option<int>
    decreases known.len(),
{
    if known.len() == 0 {
        None
    } else if known.last().0@ == rel {
        Some(known.len() - 1)
    } else {
        row_of(known.drop_last(), rel)
    }
}

proof fn lemma_row_of(known: Seq<(String, KnownFile)>, rel: Seq<char>)
    ensures
        match row_of(known, rel) {
            Some(i) => 0 <= i < known.len() && known[i].0@ == rel,
            None => forall|i: int| 0 <= i < known.len() ==> (#[trigger] known[i]).0@ != rel,
        },
    decreases known.len(),
{
    if known.len() > 0 && known.last().0@ != rel {
        lemma_row_of(known.drop_last(), rel);
        assert forall|i: int| 0 <= i < known.len() - 1 implies known.drop_last()[i] == known[i] by {}
    }
}

fn find_row(known: &Vec<(String, KnownFile)>, rel: &str) -> (r: Option<usize>)
    ensures
        match r {
            Some(i) => row_of(known@, rel@) == Some(i as int) && i < known@.len(),
            None => row_of(known@, rel@) is None,
        },
{
    let mut i: usize = known.len();
    assert(known@.take(i as int) =~= known@);
    while i > 0
        invariant
            i <= known.len(),
            row_of(known@.take(i as int), rel@) == row_of(known@, rel@),
        decreases i,
    {
        let ghost head = known@.take(i as int);
        assert(head.last() == known@[i - 1]);
        assert(head.drop_last() =~= known@.take(i - 1));
        if text::same(known[i - 1].0.as_str(), rel) {
            return Some(i - 1);
        }
        i -= 1;
    }
    None
}

/// The rows not met on the walk and the files to extract, after a walk.
pub open spec fn walked(
    kind: MediaKind,
    known: Seq<(String, KnownFile)>,
    seen: Seq<Seen>,
    now: int,
    grace_ms: int,
) -> (Seq<(String, KnownFile)>, Seq<Step>)
    decreases seen.len(),
{
    if seen.len() == 0 {
        (known, seq![])
    } else {
        let (left, steps) = walked(kind, known, seen.drop_last(), now, grace_ms);
        let s = seen.last();
        let at = row_of(left, s.rel@);
        let row = match at {
            Some(i) => Some(left[i].1),
            None => None,
        };
        let verdict = judged(kind, row, s, now, grace_ms);
        (
            match at {
                Some(i) => left.remove(i),
                None => left,
            },
            if verdict == Verdict::Changed || verdict == Verdict::Again {
                steps.push(
                    Step {
                        seen: (seen.len() - 1) as usize,
                        id: match row {
                            Some(kf) => Some(kf.id),
                            None => None,
                        },
                        upsert: verdict == Verdict::Changed,
                    },
                )
            } else {
                steps
            },
        )
    }
}

/// The files that are new or changed.
pub open spec fn upserts(steps: Seq<Step>) -> nat
    decreases steps.len(),
{
    if steps.len() == 0 {
        0
    } else {
        upserts(steps.drop_last()) + (if steps.last().upsert {
            1nat
        } else {
            0
        })
    }
}

pub open spec fn ids_of(rows: Seq<(String, KnownFile)>) -> Seq<i64> {
    Seq::new(rows.len(), |i: int| rows[i].1.id)
}

/// What a pass over a root comes to.
#[derive(Debug)]
pub struct Pass {
    /// The files to extract, in the order of the walk.
    pub steps: Vec<Step>,
    /// Rows whose file is gone.
    pub vanished: Vec<i64>,
    /// New or changed media files. The distinction matters to the
    /// auto-enrich trigger, which must ignore sidecar-driven re-extraction or
    /// enrichment's own .nfo writes would re-trigger it.
    pub new_media: usize,
}

/// Full pass over one root, given its rows and the media files that a walk
/// came upon: upsert new/changed files, extract anything not ready, delete
/// rows whose file is gone.
pub fn reconcile_root(
    kind: MediaKind,
    known: Vec<(String, KnownFile)>,
    seen: &Vec<Seen>,
    now: i64,
) -> (r: Pass)
    ensures
        ({
            let (left, steps) = walked(kind, known@, seen@, now as int, GRACE_MS as int);
            &&& r.steps@ == steps
            &&& r.vanished@ == ids_of(left)
            &&& r.new_media == upserts(steps)
        }),
{
    let ghost rows = known@;
    let grace_ms: u64 = GRACE_MS;
    let mut left = known;
    let mut steps: Vec<Step> = Vec::new();
    let mut new_media: usize = 0;
    let mut i: usize = 0;
    assert(seen@.take(0) =~= seq![]);
    while i < seen.len()
        invariant
            i <= seen.len(),
            new_media <= i,
            grace_ms == GRACE_MS,
            (left@, steps@) == walked(
                kind,
                rows,
                seen@.take(i as int),
                now as int,
                grace_ms as int,
            ),
            new_media == upserts(steps@),
        decreases seen.len() - i,
    {
        let s = &seen[i];
        proof {
            assert(seen@.take(i + 1).drop_last() =~= seen@.take(i as int));
            assert(seen@.take(i + 1).last() == *s);
        }
        let ghost before = steps@;
        let at = find_row(&left, s.rel.as_str());
        let verdict = match at {
            Some(p) => judge(kind, Some(&left[p].1), s, now, grace_ms),
            None => judge(kind, None, s, now, grace_ms),
        };
        let id: Option<i64> = match at {
            Some(p) => {
                let row = left.remove(p);
                Some(row.1.id)
            },
            None => None,
        };
        if verdict == Verdict::Changed || verdict == Verdict::Again {
            steps.push(Step { seen: i, id, upsert: verdict == Verdict::Changed });
            assert(steps@.drop_last() =~= before);
            if verdict == Verdict::Changed {
                new_media += 1;
            }
        }
        i += 1;
    }
    assert(seen@.take(i as int) =~= seen@);
    let mut vanished: Vec<i64> = Vec::new();
    let mut k: usize = 0;
    while k < left.len()
        invariant
            k <= left.len(),
            vanished@ == ids_of(left@).take(k as int),
        decreases left.len() - k,
    {
        vanished.push(left[k].1.id);
        k += 1;
        assert(vanished@ =~= ids_of(left@).take(k as int));
    }
    assert(vanished@ =~= ids_of(left@));
    Pass { steps, vanished, new_media }
}

// -------------------------------------------------------------------- laws

/// Media files are told by their extensions whatever the case of ASCII letters;
/// under a music root they are audio files, under any other videos, and none is
/// both; a file without an extension is none.
pub proof fn extensions_ignore_case(kind: MediaKind, p: Seq<char>, q: Seq<char>)
    ensures
        match (
            paths::extension_of(extract::name_of(p)),
            paths::extension_of(extract::name_of(q)),
        ) {
            (Some(a), Some(b)) => text::ascii_lower(a) == text::ascii_lower(b) ==> mime_of(kind, p)
                == mime_of(kind, q),
            (None, _) => mime_of(kind, p) is None,
            _ => true,
        },
        mime_of(kind, p) matches Some(m) ==> text::begins(
            m,
            if kind == MediaKind::Music {
                "audio/"@
            } else {
                "video/"@
            },
        ),
        mime_of(MediaKind::Music, p) is Some ==> mime_of(MediaKind::Movies, p) is None && mime_of(
            MediaKind::Tv,
            p,
        ) is None,
{
    if let Some(e) = paths::extension_of(extract::name_of(p)) {
        mime::types_are_of_their_sort(extension_key(e), kind != MediaKind::Music);
        mime::sorts_are_apart(extension_key(e));
    }
}

/// No two rows are of one path.
pub open spec fn one_row_each(known: Seq<(String, KnownFile)>) -> bool {
    forall|i: int, j: int|
        0 <= i < j < known.len() ==> (#[trigger] known[i]).0@ != (#[trigger] known[j]).0@
}

pub open spec fn met(seen: Seq<Seen>, rel: Seq<char>) -> bool {
    exists|i: int| 0 <= i < seen.len() && (#[trigger] seen[i]).rel@ == rel
}

proof fn lemma_left(
    kind: MediaKind,
    known: Seq<(String, KnownFile)>,
    seen: Seq<Seen>,
    now: int,
    grace_ms: int,
)
    requires
        one_row_each(known),
    ensures
        ({
            let left = walked(kind, known, seen, now, grace_ms).0;
            &&& one_row_each(left)
            &&& forall|i: int| 0 <= i < left.len() ==> !met(seen, (#[trigger] left[i]).0@)
            &&& forall|i: int| 0 <= i < left.len() ==> known.contains(#[trigger] left[i])
            &&& forall|i: int|
                0 <= i < known.len() && !met(seen, (#[trigger] known[i]).0@) ==> left.contains(
                    known[i],
                )
        }),
    decreases seen.len(),
{
    let left = walked(kind, known, seen, now, grace_ms).0;
    if seen.len() > 0 {
        let head = seen.drop_last();
        let s = seen.last();
        lemma_left(kind, known, head, now, grace_ms);
        let prev = walked(kind, known, head, now, grace_ms).0;
        let at = row_of(prev, s.rel@);
        lemma_row_of(prev, s.rel@);
        match at {
            Some(p) => {
                assert forall|i: int| 0 <= i < left.len() implies (#[trigger] left[i]) == prev[if i
                    < p {
                    i
                } else {
                    i + 1
                }] by {}
                assert forall|i: int, j: int| 0 <= i < j < left.len() implies (
                #[trigger] left[i]).0@ != (#[trigger] left[j]).0@ by {
                    let a = if i < p {
                        i
                    } else {
                        i + 1
                    };
                    let b = if j < p {
                        j
                    } else {
                        j + 1
                    };
                    assert(prev[a].0@ != prev[b].0@);
                }
                assert forall|i: int| 0 <= i < left.len() implies !met(
                    seen,
                    (#[trigger] left[i]).0@,
                ) && known.contains(left[i]) by {
                    let a = if i < p {
                        i
                    } else {
                        i + 1
                    };
                    assert(left[i] == prev[a]);
                    assert(!met(head, prev[a].0@));
                    assert(prev[a].0@ != prev[p].0@);
                    if met(seen, left[i].0@) {
                        let k = choose|k: int|
                            0 <= k < seen.len() && (#[trigger] seen[k]).rel@ == left[i].0@;
                        if k < head.len() {
                            assert(head[k].rel@ == left[i].0@);
                        }
                    }
                }
                assert forall|i: int|
                    0 <= i < known.len() && !met(seen, (#[trigger] known[i]).0@) implies left.contains(
                    known[i],
                ) by {
                    lemma_met_more(seen, known[i].0@);
                    assert(prev.contains(known[i]));
                    let a = choose|a: int| 0 <= a < prev.len() && prev[a] == known[i];
                    assert(seen[seen.len() - 1].rel@ == s.rel@);
                    assert(a != p);
                    if a < p {
                        assert(left[a] == known[i]);
                    } else {
                        assert(left[a - 1] == known[i]);
                    }
                }
            },
            None => {
                assert forall|i: int| 0 <= i < left.len() implies !met(
                    seen,
                    (#[trigger] left[i]).0@,
                ) by {
                    assert(!met(head, prev[i].0@));
                    if met(seen, left[i].0@) {
                        let k = choose|k: int|
                            0 <= k < seen.len() && (#[trigger] seen[k]).rel@ == left[i].0@;
                        if k < head.len() {
                            assert(head[k].rel@ == left[i].0@);
                        }
                    }
                }
                assert forall|i: int|
                    0 <= i < known.len() && !met(seen, (#[trigger] known[i]).0@) implies left.contains(
                    known[i],
                ) by {
                    lemma_met_more(seen, known[i].0@);
                }
            },
        }
    } else {
        assert(left == known);
        assert forall|i: int| 0 <= i < known.len() implies known.contains(#[trigger] known[i]) by {}
    }
}

proof fn lemma_met_more(seen: Seq<Seen>, rel: Seq<char>)
    requires
        seen.len() > 0,
    ensures
        !met(seen, rel) ==> !met(seen.drop_last(), rel),
{
    if met(seen.drop_last(), rel) {
        let k = choose|k: int|
            0 <= k < seen.drop_last().len() && (#[trigger] seen.drop_last()[k]).rel@ == rel;
        assert(seen[k].rel@ == rel);
    }
}

/// A row is deleted exactly when the walk did not come upon its file:
/// whatever is on disk keeps its row, even while it is still being written.
pub proof fn only_vanished_rows_go(
    kind: MediaKind,
    known: Seq<(String, KnownFile)>,
    seen: Seq<Seen>,
    now: int,
    grace_ms: int,
    i: int,
)
    requires
        one_row_each(known),
        0 <= i < known.len(),
    ensures
        walked(kind, known, seen, now, grace_ms).0.contains(known[i]) <==> !met(seen, known[i].0@),
{
    lemma_left(kind, known, seen, now, grace_ms);
    let left = walked(kind, known, seen, now, grace_ms).0;
    if left.contains(known[i]) {
        let k = choose|k: int| 0 <= k < left.len() && left[k] == known[i];
        assert(!met(seen, left[k].0@));
    }
}

/// A pass that finds every file as the catalog has it extracts nothing.
pub proof fn unchanged_files_are_left_alone(
    kind: MediaKind,
    known: Seq<(String, KnownFile)>,
    seen: Seq<Seen>,
    now: int,
    grace_ms: int,
)
    requires
        one_row_each(known),
        forall|i: int, j: int|
            0 <= i < j < seen.len() ==> (#[trigger] seen[i]).rel@ != (#[trigger] seen[j]).rel@,
        forall|i: int|
            0 <= i < seen.len() ==> {
                let at = row_of(known, (#[trigger] seen[i]).rel@);
                at is Some && judged(kind, Some(known[at->Some_0].1), seen[i], now, grace_ms)
                    == Verdict::Unchanged
            },
    ensures
        walked(kind, known, seen, now, grace_ms).1.len() == 0,
    decreases seen.len(),
{
    if seen.len() > 0 {
        let head = seen.drop_last();
        let s = seen.last();
        assert forall|i: int, j: int| 0 <= i < j < head.len() implies (#[trigger] head[i]).rel@ != (
        #[trigger] head[j]).rel@ by {
            assert(seen[i].rel@ != seen[j].rel@);
        }
        assert forall|i: int| 0 <= i < head.len() implies {
            let at = row_of(known, (#[trigger] head[i]).rel@);
            at is Some && judged(kind, Some(known[at->Some_0].1), head[i], now, grace_ms)
                == Verdict::Unchanged
        } by {
            assert(head[i] == seen[i]);
        }
        unchanged_files_are_left_alone(kind, known, head, now, grace_ms);
        lemma_left(kind, known, head, now, grace_ms);
        let left = walked(kind, known, head, now, grace_ms).0;
        assert(seen[seen.len() - 1] == s);
        lemma_row_of(known, s.rel@);
        let at = row_of(known, s.rel@)->Some_0;
        assert(!met(head, s.rel@)) by {
            if met(head, s.rel@) {
                let k = choose|k: int|
                    0 <= k < head.len() && (#[trigger] head[k]).rel@ == s.rel@;
                assert(seen[k].rel@ != seen[seen.len() - 1].rel@);
            }
        }
        assert(left.contains(known[at]));
        let b = choose|b: int| 0 <= b < left.len() && left[b] == known[at];
        lemma_row_of(left, s.rel@);
        let p = row_of(left, s.rel@)->Some_0;
        if p != b {
            if p < b {
                assert(left[p].0@ != left[b].0@);
            } else {
                assert(left[b].0@ != left[p].0@);
            }
        }
    }
}

/// No two of the files are at one path.
pub open spec fn seen_once(seen: Seq<Seen>) -> bool {
    forall|i: int, j: int|
        0 <= i < j < seen.len() ==> (#[trigger] seen[i]).rel@ != (#[trigger] seen[j]).rel@
}

/// A file differs from its row: it was written again.
pub open spec fn rewritten(kf: KnownFile, s: Seen) -> bool {
    kf.size != s.size || kf.mtime != s.mtime
}

/// What stands beside a file is not what it was extracted with, or it was not
/// extracted.
pub open spec fn outdated(kind: MediaKind, kf: KnownFile, s: Seen) -> bool {
    ||| kf.status@ != "ready"@
    ||| kf.nfo_mtime != s.nfo_mtime
    ||| kind != MediaKind::Music && kf.edl_mtime != s.edl_mtime
    ||| kind == MediaKind::Music && s.music_mtime is Some && s.music_mtime->Some_0 > kf.updated_at
    ||| s.art is Some && (kf.art is None || kf.art->Some_0@ != s.art->Some_0@)
    ||| s.art is None && kf.art is Some && kf.art->Some_0@ != "embedded"@
    ||| s.art is Some && kf.art is Some && kf.art->Some_0@ == "embedded"@
}

/// Of a file that a pass comes upon. One that changed within the last two
/// seconds waits. Of the others, one without a row and one that was written
/// again are recorded and extracted; one whose row is as it is, but which was
/// not extracted or whose sidecars (.nfo, .edl, artwork, music.toml) are not
/// those it was extracted with, is extracted again; any other is left alone.
pub proof fn a_pass_extracts_what_it_has_to(
    kind: MediaKind,
    known: Seq<(String, KnownFile)>,
    seen: Seq<Seen>,
    now: int,
    i: int,
    row: Option<int>,
)
    requires
        one_row_each(known),
        seen_once(seen),
        0 <= i < seen.len() <= usize::MAX,
        match row {
            Some(r) => 0 <= r < known.len() && known[r].0@ == seen[i].rel@,
            None => forall|r: int| 0 <= r < known.len() ==> (#[trigger] known[r]).0@ != seen[i].rel@,
        },
    ensures
        ({
            let steps = walked(kind, known, seen, now, GRACE_MS as int).1;
            let settled = now - seen[i].mtime >= 2;
            match row {
                Some(r) => {
                    let kf = known[r].1;
                    &&& settled && rewritten(kf, seen[i]) ==> steps.contains(
                        Step { seen: i as usize, id: Some(kf.id), upsert: true },
                    )
                    &&& settled && !rewritten(kf, seen[i]) && outdated(kind, kf, seen[i])
                        ==> steps.contains(
                        Step { seen: i as usize, id: Some(kf.id), upsert: false },
                    )
                    &&& !settled || (!rewritten(kf, seen[i]) && !outdated(kind, kf, seen[i]))
                        ==> forall|j: int| 0 <= j < steps.len() ==> (#[trigger] steps[j]).seen != i
                },
                None => {
                    &&& settled ==> steps.contains(
                        Step { seen: i as usize, id: None, upsert: true },
                    )
                    &&& !settled ==> forall|j: int|
                        0 <= j < steps.len() ==> (#[trigger] steps[j]).seen != i
                },
            }
        }),
{
    let head = seen.take(i + 1);
    let before = seen.take(i);
    let s = seen[i];
    let g = GRACE_MS as int;
    assert(head.drop_last() =~= before);
    assert(head.last() == s);
    lemma_left(kind, known, before, now, g);
    lemma_steps_below(kind, known, before, now, g);
    let left = walked(kind, known, before, now, g).0;
    lemma_row_of(left, s.rel@);
    assert(!met(before, s.rel@)) by {
        if met(before, s.rel@) {
            let k = choose|k: int| 0 <= k < before.len() && (#[trigger] before[k]).rel@ == s.rel@;
            assert(seen[k].rel@ != seen[i].rel@);
        }
    }
    let at = row_of(left, s.rel@);
    match row {
        Some(r) => {
            assert(left.contains(known[r]));
            let b = choose|b: int| 0 <= b < left.len() && left[b] == known[r];
            let p = at->Some_0;
            if p != b {
                if p < b {
                    assert(left[p].0@ != left[b].0@);
                } else {
                    assert(left[b].0@ != left[p].0@);
                }
            }
            assert(left[p] == known[r]);
        },
        None => {
            if let Some(p) = at {
                assert(known.contains(left[p]));
                let k = choose|k: int| 0 <= k < known.len() && known[k] == left[p];
                assert(known[k].0@ != s.rel@);
            }
        },
    }
    let here = walked(kind, known, head, now, g).1;
    let prior = walked(kind, known, before, now, g).1;
    if here.len() > prior.len() {
        assert(here[here.len() - 1].seen == i);
    }
    lemma_steps_stay(kind, known, seen, now, g, i + 1);
    let steps = walked(kind, known, seen, now, g).1;
    if here.len() > prior.len() {
        assert(steps[prior.len() as int] == here[prior.len() as int]);
    } else {
        assert forall|j: int| 0 <= j < steps.len() implies (#[trigger] steps[j]).seen != i by {
            if j < here.len() {
                assert(steps[j] == here[j]);
                assert(here[j] == prior[j]);
            }
        }
    }
}

/// The steps of a walk are of the files it came upon, in their order.
proof fn lemma_steps_below(
    kind: MediaKind,
    known: Seq<(String, KnownFile)>,
    seen: Seq<Seen>,
    now: int,
    grace_ms: int,
)
    requires
        seen.len() <= usize::MAX,
    ensures
        ({
            let steps = walked(kind, known, seen, now, grace_ms).1;
            &&& forall|j: int| 0 <= j < steps.len() ==> (#[trigger] steps[j]).seen < seen.len()
            &&& forall|j: int, k: int|
                0 <= j < k < steps.len() ==> (#[trigger] steps[j]).seen < (#[trigger] steps[k]).seen
        }),
    decreases seen.len(),
{
    if seen.len() > 0 {
        lemma_steps_below(kind, known, seen.drop_last(), now, grace_ms);
    }
}

/// What a walk has found so far stays found, and what follows is of later
/// files.
proof fn lemma_steps_stay(
    kind: MediaKind,
    known: Seq<(String, KnownFile)>,
    seen: Seq<Seen>,
    now: int,
    grace_ms: int,
    n: int,
)
    requires
        0 <= n <= seen.len() <= usize::MAX,
    ensures
        ({
            let steps = walked(kind, known, seen, now, grace_ms).1;
            let part = walked(kind, known, seen.take(n), now, grace_ms).1;
            &&& part.len() <= steps.len()
            &&& forall|j: int| 0 <= j < part.len() ==> (#[trigger] steps[j]) == part[j]
            &&& forall|j: int| part.len() <= j < steps.len() ==> (#[trigger] steps[j]).seen >= n
        }),
    decreases seen.len(),
{
    if n < seen.len() {
        assert(seen.drop_last().take(n) =~= seen.take(n));
        lemma_steps_stay(kind, known, seen.drop_last(), now, grace_ms, n);
    } else {
        assert(seen.take(n) =~= seen);
    }
}

/// A pass extracts no file twice, and counts as new media the files that it
/// records, not those it only extracts again.
pub proof fn steps_are_in_order(
    kind: MediaKind,
    known: Seq<(String, KnownFile)>,
    seen: Seq<Seen>,
    now: int,
)
    requires
        seen.len() <= usize::MAX,
    ensures
        ({
            let steps = walked(kind, known, seen, now, GRACE_MS as int).1;
            &&& forall|j: int| 0 <= j < steps.len() ==> (#[trigger] steps[j]).seen < seen.len()
            &&& forall|j: int, k: int|
                0 <= j < k < steps.len() ==> (#[trigger] steps[j]).seen < (#[trigger] steps[k]).seen
            &&& upserts(steps) == steps.filter(|s: Step| s.upsert).len()
        }),
{
    lemma_steps_below(kind, known, seen, now, GRACE_MS as int);
    lemma_upserts(walked(kind, known, seen, now, GRACE_MS as int).1);
}

proof fn lemma_upserts(steps: Seq<Step>)
    ensures
        upserts(steps) == steps.filter(|s: Step| s.upsert).len(),
    decreases steps.len(),
{
    reveal(Seq::filter);
    if steps.len() > 0 {
        lemma_upserts(steps.drop_last());
    }
}

} // verus!

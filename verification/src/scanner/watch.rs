//! What the watcher does about the events it gets. Times are milliseconds on
//! a clock that does not run backwards.
use vstd::prelude::*;
use vstd::string::*;
use vstd::utf8::encode_utf8;
use crate::db::models::{MediaKind, Root};
use crate::keyed;
use crate::paths;
use crate::scanner::extract;
use crate::scanner::extract::Extracted;
use crate::scanner::reconcile;
use crate::text;

verus! {

pub open spec fn elapsed(now: int, since: int) -> int {
    if now >= since {
        now - since
    } else {
        0
    }
}

fn since(now: u64, then: u64) -> (r: u64)
    ensures
        r == elapsed(now as int, then as int),
{
    if now >= then {
        now - then
    } else {
        0
    }
}

// --------------------------------------------------------------- enrichment

/// How long after a run ends its own .srt writes may still surface as
/// events (the debouncer holds them for settle_ms, and a rename lands
/// last).
pub const SIDECAR_GRACE_MS: u64 = 60_000;

/// Debounced, serialized runner for the media-enrich subprocess. Triggered
/// by new/changed media files, and by a written .srt (so a corrected
/// sidecar gets re-embedded) — never by other sidecar events, which is
/// what keeps enrichment's own .nfo writes from re-triggering it. The
/// .srt files a run writes itself (extracted tracks) are told apart by
/// time: sidecar events while a run is in flight, or within a grace
/// period after it ends, are ignored.
#[derive(Debug, Clone, Copy, PartialEq, Eq, Structural)]
pub struct EnrichRunner {
    pub quiet_secs: u64,
    pub min_interval_secs: u64,
    pub pending: bool,
    pub last_add: u64,
    pub last_run: Option<u64>,
    /// When the last child exited, for the sidecar grace period.
    pub finished_at: Option<u64>,
    /// Whether a child is in flight.
    pub running: bool,
}

/// What waiting on the child gave.
#[derive(Debug, Clone, Copy, PartialEq, Eq, Structural)]
pub enum Child {
    StillRunning,
    Finished { success: bool },
    WaitFailed,
}

impl EnrichRunner {
    pub fn new(quiet_secs: u64, min_interval_secs: u64, now: u64) -> (r: Self)
        ensures
            r == (EnrichRunner {
                quiet_secs,
                min_interval_secs,
                pending: false,
                last_add: now,
                last_run: None,
                finished_at: None,
                running: false,
            }),
    {
        EnrichRunner {
            quiet_secs,
            min_interval_secs,
            pending: false,
            last_add: now,
            last_run: None,
            finished_at: None,
            running: false,
        }
    }

    pub open spec fn noted(self, now: u64) -> EnrichRunner {
        EnrichRunner { pending: true, last_add: now, ..self }
    }

    pub fn note_media_added(&mut self, now: u64)
        ensures
            *final(self) == old(self).noted(now),
    {
        self.pending = true;
        self.last_add = now;
    }

    /// Whether a sidecar written now is most likely a run's own doing.
    pub open spec fn own_write(self, now: int) -> bool {
        self.running || (self.finished_at matches Some(t) && elapsed(now, t as int)
            < SIDECAR_GRACE_MS)
    }

    /// An .srt was written. Scheduled like new media, unless a run is in
    /// flight or just ended — then it is most likely the run's own doing.
    /// Tells whether a run was scheduled.
    pub fn note_caption_sidecar_changed(&mut self, now: u64) -> (r: bool)
        ensures
            r == !old(self).own_write(now as int),
            *final(self) == (if old(self).own_write(now as int) {
                *old(self)
            } else {
                old(self).noted(now)
            }),
    {
        let just_ended = match self.finished_at {
            Some(t) => since(now, t) < SIDECAR_GRACE_MS,
            None => false,
        };
        if self.running || just_ended {
            return false;
        }
        self.pending = true;
        self.last_add = now;
        true
    }

    /// The state once the child has been waited on.
    pub open spec fn reaped(self, child: Child, now: u64) -> EnrichRunner {
        if !self.running {
            self
        } else {
            match child {
                Child::StillRunning => self,
                // Failed run (network down, missing key, ...): the backlog
                // still needs enriching — retry on the min-interval throttle
                // until a run succeeds.
                Child::Finished { success } => EnrichRunner {
                    pending: self.pending || !success,
                    running: false,
                    finished_at: Some(now),
                    ..self
                },
                Child::WaitFailed => EnrichRunner {
                    running: false,
                    finished_at: Some(now),
                    ..self
                },
            }
        }
    }

    /// Whether a run is due.
    pub open spec fn is_due(self, now: int) -> bool {
        &&& !self.running
        &&& self.pending
        &&& elapsed(now, self.last_add as int) >= self.quiet_secs * 1000
        &&& (self.last_run matches Some(t) ==> elapsed(now, t as int) >= self.min_interval_secs
            * 1000)
    }

    /// Reap a finished run; tells whether a new one is to be launched, which
    /// is then answered for by `launched`.
    pub fn tick(&mut self, child: Child, now: u64) -> (r: bool)
        ensures
            ({
                let reaped = old(self).reaped(child, now);
                &&& r == reaped.is_due(now as int)
                &&& *final(self) == (if r {
                    EnrichRunner { pending: false, last_run: Some(now), ..reaped }
                } else {
                    reaped
                })
            }),
    {
        if self.running {
            match child {
                Child::StillRunning => {
                    return false;
                },
                Child::Finished { success } => {
                    if !success {
                        self.pending = true;
                    }
                },
                Child::WaitFailed => {},
            }
            self.running = false;
            self.finished_at = Some(now);
        }
        if !self.pending || (since(now, self.last_add) as u128) < self.quiet_secs as u128 * 1000 {
            return false;
        }
        if let Some(t) = self.last_run {
            if (since(now, t) as u128) < self.min_interval_secs as u128 * 1000 {
                return false;
            }
        }
        self.pending = false;
        self.last_run = Some(now);
        true
    }

    /// What came of the launch: a child in flight, or another try.
    pub fn launched(&mut self, started: bool)
        ensures
            *final(self) == (if started {
                EnrichRunner { running: true, ..*old(self) }
            } else {
                EnrichRunner { pending: true, ..*old(self) }
            }),
    {
        if started {
            self.running = true;
        } else {
            self.pending = true;
        }
    }

    pub open spec fn at_rest(self) -> bool {
        !self.running && !self.pending
    }

    pub fn is_idle(&self) -> (r: bool)
        ensures
            r == self.at_rest(),
    {
        !self.running && !self.pending
    }
}

/// The .srt files that a run writes itself schedule no further run: not while
/// it is in flight, nor within the grace period after it ends.
pub proof fn runs_do_not_feed_themselves(r: EnrichRunner, child: Child, ended: u64, now: u64)
    requires
        r.running,
        child != Child::StillRunning,
        elapsed(now as int, ended as int) < SIDECAR_GRACE_MS,
    ensures
        r.own_write(now as int),
        r.reaped(child, ended).own_write(now as int),
{
}

/// A failed run leaves its work pending, and two runs start at least the
/// minimum interval apart.
pub proof fn failed_runs_are_retried_in_time(r: EnrichRunner, started: u64, ended: u64, now: u64)
    requires
        r.running,
        r.last_run == Some(started),
        started <= now,
    ensures
        ({
            let after = r.reaped(Child::Finished { success: false }, ended);
            &&& after.pending
            &&& after.is_due(now as int) ==> now - started >= r.min_interval_secs * 1000
        }),
{
}

// ----------------------------------------------------------------- analysis

pub const ANALYZE_QUIET_MS: u64 = 60_000;

/// Debounced driver for the audio segment detector: one season per tick,
/// which keeps the watcher responsive, and only after new media has
/// settled and enrichment is idle — enrichment may rewrite media files
/// (subtitle embedding, remuxing), which would immediately re-stale the
/// fingerprints it just computed.
#[derive(Debug, Clone, Copy, PartialEq, Eq, Structural)]
pub struct AnalyzeRunner {
    pub pending: bool,
    pub last_add: u64,
}

impl AnalyzeRunner {
    pub fn note_media_added(&mut self, now: u64)
        ensures
            *final(self) == (AnalyzeRunner { pending: true, last_add: now }),
    {
        self.pending = true;
        self.last_add = now;
    }

    /// Whether a season is to be analyzed now.
    pub fn is_due(&self, enrich_idle: bool, now: u64) -> (r: bool)
        ensures
            r == (self.pending && enrich_idle && elapsed(now as int, self.last_add as int)
                >= ANALYZE_QUIET_MS),
    {
        self.pending && enrich_idle && since(now, self.last_add) >= ANALYZE_QUIET_MS
    }

    /// What came of it: a season was analyzed, none was left, or it failed.
    /// After a season more may remain; otherwise the work is done.
    pub fn analyzed(&mut self, outcome: Option<bool>)
        ensures
            *final(self) == (AnalyzeRunner {
                pending: old(self).pending && outcome == Some(true),
                ..*old(self)
            }),
    {
        match outcome {
            Some(more) => {
                if !more {
                    self.pending = false;
                }
            },
            None => {
                self.pending = false;
            },
        }
    }
}

// ------------------------------------------------------------- settle queue

/// A media file that is waiting to settle.
#[derive(Debug, Clone, Copy, PartialEq, Eq, Structural)]
pub struct Settling {
    pub size: i64,
    pub mtime: i64,
    /// When the current (size, mtime) was first observed.
    pub stable_since: u64,
    /// Attempts that ended with ffprobe unable to read the file.
    pub probe_failures: u32,
    /// Earliest next attempt, for the post-failure back-off.
    pub not_before: u64,
}

impl View for Settling {
    type V = Settling;

    open spec fn view(&self) -> Settling {
        *self
    }
}

/// Unreadable-file retries: 30 s window → 1, 2, 4, 5, 5 min → ~17 min in
/// all before giving up, which outlasts any realistic copy stall.
pub const MAX_PROBE_RETRIES: u32 = 5;

pub const MAX_PROBE_BACKOFF_MS: u64 = 300_000;

/// Media files the watcher reported, held until they stop changing.
///
/// The debouncer is no help here: it does not wait for quiet, it emits a
/// Modify event every settle_ms for as long as a copy keeps writing, and
/// a stat-to-stat size comparison is no defence against a network copy
/// that stalls for seconds at a time. So a file is probed only once its
/// size and mtime have held still for the whole settle window. If
/// ffprobe still can't read it then (an MP4's moov atom lands last), the
/// copying client may have preallocated the size and pinned the mtime up
/// front, so the file is tried again a few times with a growing delay
/// before it is catalogued as-is.
#[derive(Debug)]
pub struct SettleQueue {
    pub window_ms: u64,
    pub entries: Vec<(String, Settling)>,
}

impl View for SettleQueue {
    type V = Map<Seq<char>, Settling>;

    open spec fn view(&self) -> Map<Seq<char>, Settling> {
        keyed::mapped(self.entries@)
    }
}

/// An entry at what was observed now.
pub open spec fn observed(e: Settling, size: i64, mtime: i64, now: u64) -> Settling {
    if e.size == size && e.mtime == mtime {
        e
    } else {
        Settling { size, mtime, stable_since: now, ..e }
    }
}

pub open spec fn settled(e: Settling, window_ms: int, now: int) -> bool {
    elapsed(now, e.stable_since as int) >= window_ms && now >= e.not_before
}

/// An entry after another failed attempt, with the delay before the next.
pub open spec fn put_off(e: Settling, delay: u64, now: u64) -> Settling {
    Settling {
        probe_failures: (e.probe_failures + 1) as u32,
        not_before: (now + delay) as u64,
        ..e
    }
}

/// What is left of the entries once each file is observed.
pub open spec fn remaining(
    entries: Seq<(String, Settling)>,
    stats: Seq<Option<(i64, i64)>>,
    now: u64,
) -> Map<Seq<char>, Settling>
    decreases entries.len(),
{
    if entries.len() == 0 {
        Map::empty()
    } else {
        let head = remaining(entries.drop_last(), stats.drop_last(), now);
        match stats.last() {
            None => head,
            Some((size, mtime)) => head.insert(
                entries.last().0@,
                observed(entries.last().1, size, mtime, now),
            ),
        }
    }
}

/// The files that are due.
pub open spec fn due_of(
    entries: Seq<(String, Settling)>,
    stats: Seq<Option<(i64, i64)>>,
    window_ms: int,
    now: int,
) -> Seq<Seq<char>>
    decreases entries.len(),
{
    if entries.len() == 0 {
        seq![]
    } else {
        let head = due_of(entries.drop_last(), stats.drop_last(), window_ms, now);
        let e = entries.last().1;
        match stats.last() {
            Some((size, mtime)) if size == e.size && mtime == e.mtime && settled(
                e,
                window_ms,
                now,
            ) => head.push(entries.last().0@),
            _ => head,
        }
    }
}

/// The delay after so many failures.
pub open spec fn backoff(window_ms: int, failures: nat) -> int {
    let d = window_ms * vstd::arithmetic::power2::pow2(failures);
    if d < MAX_PROBE_BACKOFF_MS {
        d
    } else {
        MAX_PROBE_BACKOFF_MS as int
    }
}

fn backoff_after(window_ms: u64, failures: u32) -> (r: u64)
    requires
        failures <= MAX_PROBE_RETRIES,
    ensures
        r == backoff(window_ms as int, failures as nat),
{
    let factors: [u128; 6] = [1, 2, 4, 8, 16, 32];
    proof {
        vstd::arithmetic::power2::lemma2_to64();
    }
    let f: u128 = factors[failures as usize];
    assert(f == vstd::arithmetic::power2::pow2(failures as nat));
    assert(window_ms * f <= 0xffff_ffff_ffff_ffff * 32) by (nonlinear_arith)
        requires
            window_ms <= 0xffff_ffff_ffff_ffff,
            f <= 32,
    ;
    let d: u128 = window_ms as u128 * f;
    if d < MAX_PROBE_BACKOFF_MS as u128 {
        d as u64
    } else {
        MAX_PROBE_BACKOFF_MS
    }
}

/// What came of cataloguing a file that was due.
#[derive(Debug, Clone, Copy, PartialEq, Eq, Structural)]
pub enum Attempt {
    /// It stays queued and is tried again after this delay.
    Retry(u64),
    /// It left the queue; new media where it was catalogued.
    Done { catalogued: bool },
}

impl SettleQueue {
    pub open spec fn wf(self) -> bool {
        keyed::distinct(keyed::keys_of(self.entries@))
    }

    pub fn new(window_ms: u64) -> (r: Self)
        ensures
            r.wf(),
            r.window_ms == window_ms,
            r@ == Map::<Seq<char>, Settling>::empty(),
    {
        SettleQueue { window_ms, entries: Vec::new() }
    }

    /// An event reported this file at this size and mtime. Tells whether the
    /// file is new to the queue.
    pub fn note(&mut self, path: &str, size: i64, mtime: i64, now: u64) -> (r: bool)
        requires
            old(self).wf(),
        ensures
            final(self).wf(),
            final(self).window_ms == old(self).window_ms,
            r == !old(self)@.dom().contains(path@),
            final(self)@ == old(self)@.insert(
                path@,
                if old(self)@.dom().contains(path@) {
                    observed(old(self)@[path@], size, mtime, now)
                } else {
                    Settling {
                        size,
                        mtime,
                        stable_since: now,
                        probe_failures: 0,
                        not_before: now,
                    }
                },
            ),
    {
        proof {
            keyed::lemma_mapped(self.entries@);
        }
        match keyed::find(&self.entries, path) {
            Some(i) => {
                let e = self.entries[i].1;
                assert(self.entries@[i as int].0@ == path@);
                assert(self@.dom().contains(path@) && self@[path@] == e);
                let next = if e.size == size && e.mtime == mtime {
                    e
                } else {
                    Settling { size, mtime, stable_since: now, ..e }
                };
                keyed::put(&mut self.entries, path.to_owned(), next);
                false
            },
            None => {
                assert(!self@.dom().contains(path@));
                let e = Settling {
                    size,
                    mtime,
                    stable_since: now,
                    probe_failures: 0,
                    not_before: now,
                };
                keyed::put(&mut self.entries, path.to_owned(), e);
                true
            },
        }
    }

    /// The queued files, in the order in which `due` takes what was observed
    /// of them.
    pub fn paths(&self) -> (r: Vec<String>)
        ensures
            text::texts(r@) == keyed::keys_of(self.entries@),
    {
        let mut out: Vec<String> = Vec::new();
        let mut i: usize = 0;
        let ghost ks = keyed::keys_of(self.entries@);
        assert(text::texts(out@) =~= ks.take(0));
        while i < self.entries.len()
            invariant
                i <= self.entries.len(),
                ks == keyed::keys_of(self.entries@),
                text::texts(out@) == ks.take(i as int),
            decreases self.entries.len() - i,
        {
            text::push_text(&mut out, self.entries[i].0.as_str());
            i += 1;
            assert(text::texts(out@) =~= ks.take(i as int));
        }
        assert(ks.take(i as int) =~= ks);
        out
    }

    /// Takes the size and mtime that every entry has now: files whose size and
    /// mtime have held for the window (and whose back-off has passed) are
    /// due. Vanished files are dropped — their remove event takes care of the
    /// catalog.
    pub fn due(&mut self, stats: &Vec<Option<(i64, i64)>>, now: u64) -> (r: Vec<String>)
        requires
            old(self).wf(),
            stats@.len() == old(self).entries@.len(),
        ensures
            final(self).wf(),
            final(self).window_ms == old(self).window_ms,
            final(self)@ == remaining(old(self).entries@, stats@, now),
            text::texts(r@) == due_of(
                old(self).entries@,
                stats@,
                old(self).window_ms as int,
                now as int,
            ),
    {
        let ghost all = self.entries@;
        let ghost window = self.window_ms;
        let mut kept: Vec<(String, Settling)> = Vec::new();
        let mut due: Vec<String> = Vec::new();
        let mut i: usize = 0;
        assert(all.take(0) =~= seq![]);
        assert(stats@.take(0) =~= seq![]);
        assert(text::texts(due@) =~= seq![]);
        while i < self.entries.len()
            invariant
                i <= self.entries.len(),
                self.entries@ == all,
                self.window_ms == window,
                stats@.len() == all.len(),
                keyed::distinct(keyed::keys_of(kept@)),
                keyed::mapped(kept@) == remaining(all.take(i as int), stats@.take(i as int), now),
                text::texts(due@) == due_of(
                    all.take(i as int),
                    stats@.take(i as int),
                    window as int,
                    now as int,
                ),
            decreases self.entries.len() - i,
        {
            proof {
                assert(all.take(i + 1).drop_last() =~= all.take(i as int));
                assert(all.take(i + 1).last() == all[i as int]);
                assert(stats@.take(i + 1).drop_last() =~= stats@.take(i as int));
                assert(stats@.take(i + 1).last() == stats@[i as int]);
            }
            let e = self.entries[i].1;
            if let Some((size, mtime)) = stats[i] {
                if size != e.size || mtime != e.mtime {
                    let next = Settling { size, mtime, stable_since: now, ..e };
                    keyed::put(&mut kept, self.entries[i].0.clone(), next);
                } else {
                    if since(now, e.stable_since) >= self.window_ms && now >= e.not_before {
                        text::push_text(&mut due, self.entries[i].0.as_str());
                    }
                    keyed::put(&mut kept, self.entries[i].0.clone(), e);
                }
            }
            i += 1;
        }
        assert(all.take(i as int) =~= all);
        assert(stats@.take(i as int) =~= stats@);
        self.entries = kept;
        due
    }

    pub open spec fn retries_left(self, path: Seq<char>) -> bool {
        self@.dom().contains(path) && self@[path].probe_failures < MAX_PROBE_RETRIES
    }

    pub fn will_retry(&self, path: &str) -> (r: bool)
        requires
            self.wf(),
        ensures
            r == self.retries_left(path@),
    {
        proof {
            keyed::lemma_mapped(self.entries@);
        }
        match keyed::find(&self.entries, path) {
            Some(i) => {
                assert(self.entries@[i as int].0@ == path@);
                self.entries[i].1.probe_failures < MAX_PROBE_RETRIES
            },
            None => false,
        }
    }

    /// ffprobe couldn't read the file: schedule another attempt. Returns
    /// the delay, or None once the retries are used up.
    pub fn retry_later(&mut self, path: &str, now: u64) -> (r: Option<u64>)
        requires
            old(self).wf(),
            now + MAX_PROBE_BACKOFF_MS <= u64::MAX,
        ensures
            final(self).wf(),
            final(self).window_ms == old(self).window_ms,
            r is Some <==> old(self).retries_left(path@),
            match r {
                Some(delay) => {
                    let e = old(self)@[path@];
                    &&& delay == backoff(
                        old(self).window_ms as int,
                        (e.probe_failures + 1) as nat,
                    )
                    &&& final(self)@ == old(self)@.insert(path@, put_off(e, delay, now))
                },
                None => final(self)@ == old(self)@,
            },
    {
        proof {
            keyed::lemma_mapped(self.entries@);
        }
        match keyed::find(&self.entries, path) {
            Some(i) => {
                assert(self.entries@[i as int].0@ == path@);
                let e = self.entries[i].1;
                if e.probe_failures >= MAX_PROBE_RETRIES {
                    return None;
                }
                let failures: u32 = e.probe_failures + 1;
                let delay: u64 = backoff_after(self.window_ms, failures);
                let next = Settling { probe_failures: failures, not_before: now + delay, ..e };
                keyed::put(&mut self.entries, path.to_owned(), next);
                Some(delay)
            },
            None => None,
        }
    }

    pub fn remove(&mut self, path: &str)
        requires
            old(self).wf(),
        ensures
            final(self).wf(),
            final(self).window_ms == old(self).window_ms,
            final(self)@ == old(self)@.remove(path@),
    {
        let ghost all = self.entries@;
        let mut kept: Vec<(String, Settling)> = Vec::new();
        let mut i: usize = 0;
        assert(all.take(0) =~= seq![]);
        assert(keyed::mapped(kept@) =~= keyed::mapped(all.take(0)).remove(path@));
        while i < self.entries.len()
            invariant
                i <= self.entries.len(),
                self.entries@ == all,
                keyed::distinct(keyed::keys_of(kept@)),
                keyed::mapped(kept@) == keyed::mapped(all.take(i as int)).remove(path@),
            decreases self.entries.len() - i,
        {
            proof {
                assert(all.take(i + 1).drop_last() =~= all.take(i as int));
                assert(all.take(i + 1).last() == all[i as int]);
            }
            let ghost before = keyed::mapped(kept@);
            if !text::same(self.entries[i].0.as_str(), path) {
                keyed::put(&mut kept, self.entries[i].0.clone(), self.entries[i].1);
            }
            assert(keyed::mapped(kept@) =~= keyed::mapped(all.take(i + 1)).remove(path@));
            i += 1;
        }
        assert(all.take(i as int) =~= all);
        self.entries = kept;
    }

    pub fn is_empty(&self) -> (r: bool)
        requires
            self.wf(),
        ensures
            r == (self@.dom().len() == 0),
    {
        proof {
            keyed::lemma_size(self.entries@);
        }
        self.entries.len() == 0
    }

    /// What the queue does with a file that was due, once cataloguing it was
    /// tried: None where there was nothing to do or the attempt failed.
    pub fn attempted(&mut self, path: &str, outcome: Option<Extracted>, now: u64) -> (r: Attempt)
        requires
            old(self).wf(),
            now + MAX_PROBE_BACKOFF_MS <= u64::MAX,
        ensures
            final(self).wf(),
            final(self).window_ms == old(self).window_ms,
            match r {
                Attempt::Retry(delay) => {
                    let e = old(self)@[path@];
                    &&& outcome == Some(Extracted::NoTechInfo)
                    &&& old(self).retries_left(path@)
                    &&& delay == backoff(old(self).window_ms as int, (e.probe_failures + 1) as nat)
                    &&& final(self)@ == old(self)@.insert(path@, put_off(e, delay, now))
                },
                Attempt::Done { catalogued } => {
                    &&& !(outcome == Some(Extracted::NoTechInfo) && old(self).retries_left(path@))
                    &&& catalogued == (outcome == Some(Extracted::Ready) || outcome == Some(
                        Extracted::NoTechInfo,
                    ))
                    &&& final(self)@ == old(self)@.remove(path@)
                },
            },
    {
        if let Some(o) = outcome {
            if o == Extracted::NoTechInfo {
                if let Some(delay) = self.retry_later(path, now) {
                    return Attempt::Retry(delay);
                }
            }
        }
        self.remove(path);
        let catalogued = match outcome {
            Some(Extracted::Ready) => true,
            Some(Extracted::NoTechInfo) => true,
            _ => false,
        };
        Attempt::Done { catalogued }
    }
}

/// The delays never shrink, and none is longer than the limit.
pub proof fn delays_grow(window_ms: int, a: nat, b: nat)
    requires
        0 <= window_ms,
        a <= b,
    ensures
        backoff(window_ms, a) <= backoff(window_ms, b) <= MAX_PROBE_BACKOFF_MS,
{
    if a < b {
        vstd::arithmetic::power2::lemma_pow2_strictly_increases(a, b);
    }
    let x = vstd::arithmetic::power2::pow2(a) as int;
    let y = vstd::arithmetic::power2::pow2(b) as int;
    assert(window_ms * x <= window_ms * y) by (nonlinear_arith)
        requires
            0 <= window_ms,
            x <= y,
    ;
}

/// A file that keeps changing is never due: what was observed anew waits for
/// the whole window again.
pub proof fn changing_files_wait(e: Settling, size: i64, mtime: i64, now: u64, later: int, w: int)
    requires
        size != e.size || mtime != e.mtime,
        now <= later < now + w,
    ensures
        !settled(observed(e, size, mtime, now), w, later),
{
}

// ------------------------------------------------------------------- events

/// What an event under a root amounted to, for the runners: a caption
/// sidecar (enrichment wants to know) or nothing. New media is not an
/// outcome here — it goes to the settle queue, and counts once it is
/// catalogued from there.
#[derive(Debug, Clone, Copy, PartialEq, Eq, Structural)]
pub enum Handled {
    Nothing,
    CaptionSidecar,
}

/// The stronger of two outcomes, for a subtree scan.
pub fn stronger(a: Handled, b: Handled) -> (r: Handled)
    ensures
        r == (if a == Handled::CaptionSidecar {
            a
        } else {
            b
        }),
{
    match a {
        Handled::CaptionSidecar => a,
        Handled::Nothing => b,
    }
}

pub open spec fn byte_len(s: Seq<char>) -> nat {
    encode_utf8(s).len()
}

/// Of the roots above a path the one with the longest path, the later one of
/// two that are equally long.
pub open spec fn root_above(roots: Seq<Root>, path: Seq<char>) -> Option<int>
    decreases roots.len(),
{
    if roots.len() == 0 {
        None
    } else {
        let n = roots.len() - 1;
        match root_above(roots.drop_last(), path) {
            Some(i) => if paths::below(path, roots[n].path@) && byte_len(roots[n].path@)
                >= byte_len(roots[i].path@) {
                Some(n)
            } else {
                Some(i)
            },
            None => if paths::below(path, roots[n].path@) {
                Some(n)
            } else {
                None
            },
        }
    }
}

/// Whether a component of a path is hidden.
pub open spec fn hidden(pieces: Seq<Seq<char>>) -> bool {
    exists|i: int| 0 <= i < pieces.len() && text::begins(#[trigger] pieces[i], "."@)
}

/// The root a path belongs to, and the path relative to it.
pub open spec fn located(roots: Seq<Root>, path: Seq<char>) -> Option<(int, Seq<char>)> {
    match root_above(roots, path) {
        Some(i) => {
            let rel = paths::rest_of(path, roots[i].path@);
            if rel.len() == 0 || hidden(text::pieces(rel, '/')) {
                None
            } else {
                Some((i, rel))
            }
        },
        None => None,
    }
}

proof fn lemma_root_above(roots: Seq<Root>, path: Seq<char>)
    ensures
        root_above(roots, path) matches Some(i) ==> 0 <= i < roots.len() && paths::below(
            path,
            roots[i].path@,
        ),
    decreases roots.len(),
{
    if roots.len() > 0 {
        lemma_root_above(roots.drop_last(), path);
    }
}

/// The root a path belongs to and the path relative to it. Longest
/// matching root wins, in case one root nests inside another. None for
/// paths outside every root, the root itself, and hidden components.
pub fn locate(roots: &Vec<Root>, path: &str) -> (r: Option<(usize, String)>)
    ensures
        match r {
            Some((i, rel)) => located(roots@, path@) == Some((i as int, rel@)),
            None => located(roots@, path@) is None,
        },
{
    let mut best: Option<usize> = None;
    let mut i: usize = 0;
    assert(roots@.take(0) =~= seq![]);
    while i < roots.len()
        invariant
            i <= roots.len(),
            best matches Some(b) ==> b < i,
            root_above(roots@.take(i as int), path@) == (match best {
                Some(b) => Some(b as int),
                None => None,
            }),
        decreases roots.len() - i,
    {
        proof {
            assert(roots@.take(i + 1).drop_last() =~= roots@.take(i as int));
            assert(roots@.take(i + 1)[i as int] == roots@[i as int]);
        }
        if paths::is_below(path, roots[i].path.as_str()) {
            match best {
                Some(b) => {
                    assert(roots@.take(i as int)[b as int] == roots@[b as int]);
                    let here = roots[i].path.as_str().as_bytes_vec();
                    let there = roots[b].path.as_str().as_bytes_vec();
                    if here.len() >= there.len() {
                        best = Some(i);
                    }
                },
                None => {
                    best = Some(i);
                },
            }
        }
        i += 1;
    }
    assert(roots@.take(i as int) =~= roots@);
    proof {
        lemma_root_above(roots@, path@);
    }
    match best {
        Some(b) => {
            let rel = paths::rest_below(path, roots[b].path.as_str());
            if rel.as_str().is_empty() || any_hidden(rel.as_str()) {
                None
            } else {
                Some((b, rel))
            }
        },
        None => None,
    }
}

fn any_hidden(rel: &str) -> (r: bool)
    ensures
        r == hidden(text::pieces(rel@, '/')),
{
    let pieces = text::split(rel, '/');
    let ghost ps = text::texts(pieces@);
    let mut i: usize = 0;
    while i < pieces.len()
        invariant
            i <= pieces.len(),
            ps == text::texts(pieces@),
            ps == text::pieces(rel@, '/'),
            forall|k: int| 0 <= k < i ==> !text::begins(#[trigger] ps[k], "."@),
        decreases pieces.len() - i,
    {
        assert(ps[i as int] == pieces@[i as int]@);
        if reconcile::is_hidden(pieces[i].as_str()) {
            return true;
        }
        i += 1;
    }
    false
}

/// What there is at the path of an event.
#[derive(Debug, Clone, Copy, PartialEq, Eq, Structural)]
pub enum Presence {
    Gone,
    Link,
    Directory,
    File,
}

/// What is done about an event under a root.
#[derive(Debug, Clone, Copy, PartialEq, Eq, Structural)]
pub enum Reaction {
    Ignore,
    /// Its rows go. A remux replaces x.mkv with x.mp4: where `bequeath`, the
    /// row of the other one should keep the original's added_at first.
    Remove { bequeath: bool },
    /// A directory appeared: its files are handled one by one.
    ScanSubtree,
    IngestDirNfo,
    RefreshNfo,
    RefreshEdl,
    /// A corrected sidecar is a reason to run enrichment, which re-embeds it.
    Captions,
    RefreshArt,
    RefreshMusicMeta,
    /// A media file, which joins the settle queue unless the catalog already
    /// reflects it.
    Media,
}

/// What is done about an event under a root.
pub open spec fn reaction_to(kind: MediaKind, rel: Seq<char>, there: Presence) -> Reaction {
    let name = extract::name_of(rel);
    let ext = match paths::extension_of(name) {
        Some(e) => text::lowered(e),
        None => seq![],
    };
    match there {
        Presence::Gone => Reaction::Remove { bequeath: reconcile::mime_of(kind, rel) is Some },
        // Symlinks are never catalogued (the reconcile walker skips them as
        // well): a link planted on the share could point at anything on this
        // host, and the server would stream it.
        Presence::Link => Reaction::Ignore,
        Presence::Directory => Reaction::ScanSubtree,
        Presence::File => if ext == "nfo"@ {
            if kind == MediaKind::Tv && (name == extract::SHOW_NFO@ || name
                == extract::SEASON_NFO@) {
                Reaction::IngestDirNfo
            } else {
                Reaction::RefreshNfo
            }
        } else if ext == "edl"@ {
            Reaction::RefreshEdl
        } else if ext == "srt"@ {
            Reaction::Captions
        } else if ext == "rttm"@ {
            Reaction::Ignore
        } else if ext == "jpg"@ || ext == "png"@ {
            Reaction::RefreshArt
        } else if kind == MediaKind::Music && name == extract::MUSIC_META_FILE@ {
            Reaction::RefreshMusicMeta
        } else if reconcile::mime_of(kind, rel) is Some {
            Reaction::Media
        } else {
            Reaction::Ignore
        },
    }
}

/// React to one filesystem event path.
pub fn handle_path(kind: MediaKind, rel: &str, there: Presence) -> (r: Reaction)
    ensures
        r == reaction_to(kind, rel@, there),
{
    match there {
        Presence::Gone => {
            return Reaction::Remove { bequeath: reconcile::media_mime(kind, rel).is_some() };
        },
        Presence::Link => {
            return Reaction::Ignore;
        },
        Presence::Directory => {
            return Reaction::ScanSubtree;
        },
        Presence::File => {},
    }
    let name = match text::rsplit_once(rel, "/") {
        Some((_, name)) => name,
        None => rel.to_owned(),
    };
    let name = name.as_str();
    let ext = match paths::extension(name) {
        Some(e) => text::to_lowercase(e.as_str()),
        None => String::new(),
    };
    assert(paths::extension_of(name@) is None ==> ext@ =~= seq![]);
    let ext = ext.as_str();
    if text::same(ext, "nfo") {
        return if kind == MediaKind::Tv && (text::same(name, extract::SHOW_NFO) || text::same(
            name,
            extract::SEASON_NFO,
        )) {
            Reaction::IngestDirNfo
        } else {
            Reaction::RefreshNfo
        };
    }
    if text::same(ext, "edl") {
        return Reaction::RefreshEdl;
    }
    if text::same(ext, "srt") {
        return Reaction::Captions;
    }
    if text::same(ext, "rttm") {
        return Reaction::Ignore;
    }
    if text::same(ext, "jpg") || text::same(ext, "png") {
        return Reaction::RefreshArt;
    }
    if kind == MediaKind::Music && text::same(name, extract::MUSIC_META_FILE) {
        return Reaction::RefreshMusicMeta;
    }
    if reconcile::media_mime(kind, rel).is_some() {
        Reaction::Media
    } else {
        Reaction::Ignore
    }
}

/// A symlink is never catalogued.
pub proof fn links_are_not_followed(kind: MediaKind, rel: Seq<char>)
    ensures
        reaction_to(kind, rel, Presence::Link) == Reaction::Ignore,
{
}

/// Whether the catalog already reflects a file: its row is ready, at that
/// size and time.
pub fn catalog_reflects(row: &Option<(i64, i64, String)>, size: i64, mtime: i64) -> (r: bool)
    ensures
        r == (row matches Some((s, m, status)) && s == size && m == mtime && status@ == "ready"@),
{
    match row {
        Some((s, m, status)) => *s == size && *m == mtime && text::same(status.as_str(), "ready"),
        None => false,
    }
}

/// Whether a settled file goes back to pending after extraction — hidden from
/// the server — so the retry can finalize it properly.
pub fn back_to_pending(outcome: Extracted, final_attempt: bool) -> (r: bool)
    ensures
        r == (outcome == Extracted::NoTechInfo && !final_attempt),
{
    outcome == Extracted::NoTechInfo && !final_attempt
}

// ----------------------------------------------------------------- sidecars

/// Whether a text ends in a suffix, whatever the case of its ASCII letters.
pub open spec fn ends_ignoring_case(s: Seq<char>, suffix: Seq<char>) -> bool {
    s.len() >= suffix.len() && text::ascii_lower(s.skip(s.len() - suffix.len()))
        == text::ascii_lower(suffix)
}

/// What a file's path starts with where the image is its poster.
pub open spec fn poster_stem(rel: Seq<char>) -> Option<Seq<char>> {
    let name = extract::name_of(rel);
    let dir = dir_slash(rel);
    if ends_ignoring_case(name, "-poster.jpg"@) || ends_ignoring_case(name, "-poster.png"@) {
        Some(dir + name.take(name.len() - 11) + "."@)
    } else {
        None
    }
}

/// The directory of a path, with its slash.
pub open spec fn dir_slash(rel: Seq<char>) -> Seq<char> {
    let dir = extract::dir_of(rel);
    if dir.len() == 0 {
        seq![]
    } else {
        dir + "/"@
    }
}

pub open spec fn slashes(s: Seq<char>) -> nat
    decreases s.len(),
{
    if s.len() == 0 {
        0
    } else {
        slashes(s.drop_last()) + (if s.last() == '/' {
            1nat
        } else {
            0
        })
    }
}

/// Whether an image decorates a media file: the one whose poster it is, else
/// (cover.jpg and friends) every file in the directory and — for series
/// posters over season subfolders — one level below.
pub open spec fn decorates(rel: Seq<char>, media: Seq<char>) -> bool {
    match poster_stem(rel) {
        Some(stem) => text::begins(media, stem),
        None => text::listed(
            text::lowered(extract::name_of(rel)),
            extract::DIR_ART_NAMES@,
        ) && text::begins(media, dir_slash(rel)) && slashes(
            media.skip(dir_slash(rel).len() as int),
        ) <= 1,
    }
}

fn dir_of(rel: &str) -> (r: String)
    ensures
        r@ == dir_slash(rel@),
{
    match text::rsplit_once(rel, "/") {
        Some((d, _)) => {
            if d.as_str().is_empty() {
                assert(d@ =~= seq![]);
                d
            } else {
                let mut d = d;
                d.push_str("/");
                d
            }
        },
        None => String::new(),
    }
}

fn poster_of(rel: &str) -> (r: Option<String>)
    ensures
        text::opt_text(r) == poster_stem(rel@),
{
    let name = match text::rsplit_once(rel, "/") {
        Some((_, name)) => name,
        None => rel.to_owned(),
    };
    proof {
        reveal_strlit("-poster.jpg");
        reveal_strlit("-poster.png");
    }
    let v = text::chars_of(name.as_str());
    if v.len() < 11 {
        return None;
    }
    let n: usize = v.len() - 11;
    let tail = text::string_of(&v, n, v.len());
    assert(tail@ =~= name@.skip(n as int));
    let tail = text::to_ascii_lowercase(tail.as_str());
    let jpg = text::to_ascii_lowercase("-poster.jpg");
    let png = text::to_ascii_lowercase("-poster.png");
    if text::same(tail.as_str(), jpg.as_str()) || text::same(tail.as_str(), png.as_str()) {
        let mut out = dir_of(rel);
        let stem = text::string_of(&v, 0, n);
        assert(stem@ =~= name@.take(n as int));
        out.push_str(stem.as_str());
        out.push_str(".");
        Some(out)
    } else {
        None
    }
}

fn count_slashes(s: &str) -> (r: usize)
    ensures
        r == slashes(s@),
{
    let v = text::chars_of(s);
    let mut n: usize = 0;
    let mut i: usize = 0;
    assert(v@.take(0) =~= seq![]);
    while i < v.len()
        invariant
            i <= v.len(),
            n <= i,
            n == slashes(v@.take(i as int)),
        decreases v.len() - i,
    {
        assert(v@.take(i + 1).drop_last() =~= v@.take(i as int));
        if v[i] == '/' {
            n += 1;
        }
        i += 1;
    }
    assert(v@.take(i as int) =~= s@);
    n
}

/// Whether an image that changed decorates a catalogued file.
pub fn art_affects(rel: &str, media: &str) -> (r: bool)
    ensures
        r == decorates(rel@, media@),
{
    match poster_of(rel) {
        Some(stem) => text::starts_with(media, stem.as_str()),
        None => {
            let name = match text::rsplit_once(rel, "/") {
                Some((_, name)) => name,
                None => rel.to_owned(),
            };
            let lower = text::to_lowercase(name.as_str());
            let listed = text::is_one_of(lower.as_str(), &extract::DIR_ART_NAMES);
            if !listed {
                return false;
            }
            let dir = dir_of(rel);
            match text::strip_prefix(media, dir.as_str()) {
                Some(rest) => count_slashes(rest.as_str()) <= 1,
                None => false,
            }
        },
    }
}

/// Whether artwork that is in place calls for extracting its file again: it is
/// not the art that was stored, or its content is newer than the extraction.
pub open spec fn art_changed(
    stored: Option<Seq<char>>,
    found: Option<Seq<char>>,
    art_mtime: Option<i64>,
    updated_at: i64,
) -> bool {
    let same = (stored == Some("embedded"@) && found is None) || stored == found;
    !same || (art_mtime matches Some(t) && t > updated_at)
}

/// Whether an artwork event is a change: network filesystems (CIFS especially)
/// surface events for files nobody modified. `art_mtime` is the time of the
/// art that was found, where it could be read.
pub fn is_art_changed(
    stored: &Option<String>,
    found: &Option<String>,
    art_mtime: Option<i64>,
    updated_at: i64,
) -> (r: bool)
    ensures
        r == art_changed(text::opt_text(*stored), text::opt_text(*found), art_mtime, updated_at),
{
    let same = match (stored, found) {
        (Some(s), Some(f)) => text::same(s.as_str(), f.as_str()),
        (Some(s), None) => text::same(s.as_str(), "embedded"),
        (None, None) => true,
        (None, Some(_)) => false,
    };
    let newer = match art_mtime {
        Some(t) => t > updated_at,
        None => false,
    };
    !same || newer
}

/// Whether a music.toml applies to a track: it stands in the track's directory
/// or above.
pub fn music_meta_affects(toml_rel: &str, track: &str, status: &str) -> (r: bool)
    ensures
        r == (status@ == "ready"@ && text::begins(
            track@,
            (match text::rcut_once(toml_rel@, "/"@) {
                Some((d, _)) => d + "/"@,
                None => seq![],
            }),
        )),
{
    let prefix = match text::rsplit_once(toml_rel, "/") {
        Some((d, _)) => {
            let mut d = d;
            d.push_str("/");
            d
        },
        None => String::new(),
    };
    assert(text::rcut_once(toml_rel@, "/"@) is None ==> prefix@ =~= seq![]);
    text::same(status, "ready") && text::starts_with(track, prefix.as_str())
}

/// A text without the endings of this kind.
pub open spec fn without_ends(s: Seq<char>, end: Seq<char>) -> Seq<char>
    decreases s.len(),
{
    if end.len() > 0 && text::ends(s, end) {
        without_ends(s.take(s.len() - end.len()), end)
    } else {
        s
    }
}

pub fn trim_ends(s: &str, end: &str) -> (r: String)
    requires
        end@.len() > 0,
    ensures
        r@ == without_ends(s@, end@),
{
    let mut out = s.to_owned();
    loop
        invariant_except_break
            end@.len() > 0,
            without_ends(out@, end@) == without_ends(s@, end@),
        ensures
            out@ == without_ends(s@, end@),
        decreases out@.len(),
    {
        match text::strip_suffix(out.as_str(), end) {
            Some(rest) => {
                assert(rest@.len() < out@.len());
                out = rest;
            },
            None => {
                break;
            },
        }
    }
    out
}

/// What the path of a sidecar's media file starts with.
pub open spec fn sidecar_stem(sidecar: Seq<char>, ext: Seq<char>) -> Seq<char> {
    without_ends(without_ends(sidecar, ext), "."@) + "."@
}

/// Whether a sidecar (.nfo, .edl) that changed stands beside a media file.
pub fn sidecar_affects(sidecar: &str, ext: &str, media: &str) -> (r: bool)
    requires
        ext@.len() > 0,
    ensures
        r == (text::begins(media@, sidecar_stem(sidecar@, ext@)) && media@ != sidecar@),
{
    proof {
        reveal_strlit(".");
    }
    let s = trim_ends(sidecar, ext);
    let mut s = trim_ends(s.as_str(), ".");
    s.push_str(".");
    text::starts_with(media, s.as_str()) && !text::same(media, sidecar)
}

// -------------------------------------------------------------------- loop

/// How long the loop waits for events: short, so the runners get regular
/// ticks; shorter still while files are settling, so one is catalogued soon
/// after its window passes.
pub fn poll_secs(settling: bool) -> (r: u64)
    ensures
        r == (if settling {
            2u64
        } else {
            10
        }),
{
    if settling {
        2
    } else {
        10
    }
}

/// Whether a full pass is due; an interval of no hours disables it.
pub fn reconcile_due(hours: u64, last: u64, now: u64) -> (r: bool)
    ensures
        r == (hours > 0 && elapsed(now as int, last as int) >= hours * 3_600_000),
{
    hours > 0 && since(now, last) as u128 >= hours as u128 * 3_600_000
}

/// Whether an explicit path is meant by the enrich command: that is used
/// as-is, while a bare name prefers a sibling of this executable (the binaries
/// are built together), falling back to $PATH lookup.
pub open spec fn explicit(command: Seq<char>) -> bool {
    text::holds(command, "/"@)
}

/// Resolve the enrich command, given the sibling of this executable by that
/// name where there is one.
pub fn resolve_enrich_command(command: &str, sibling: Option<String>) -> (r: String)
    ensures
        r@ == (match sibling {
            Some(s) if !explicit(command@) => s@,
            _ => command@,
        }),
{
    if text::contains(command, "/") {
        return command.to_owned();
    }
    match sibling {
        Some(s) => s,
        None => command.to_owned(),
    }
}

// -------------------------------------------------------------------- laws

/// A run starts once something is to be done, none is in flight, nothing was
/// added for the quiet time, and the last one started the least interval ago.
pub proof fn a_run_starts_when_all_is_quiet(r: EnrichRunner, now: u64)
    requires
        r.last_add <= now,
        r.last_run is Some ==> r.last_run->Some_0 <= now,
    ensures
        r.is_due(now as int) <==> {
            &&& r.pending
            &&& !r.running
            &&& now - r.last_add >= 1000 * r.quiet_secs
            &&& r.last_run is Some ==> now - r.last_run->Some_0 >= 1000 * r.min_interval_secs
        },
{
}

/// A run that failed is owed another; one that succeeded leaves only what came
/// up meanwhile. Either way it is over, and when it ended is kept.
pub proof fn an_ended_run_is_accounted_for(r: EnrichRunner, success: bool, now: u64)
    requires
        r.running,
    ensures
        ({
            let after = r.reaped(Child::Finished { success }, now);
            &&& !after.running
            &&& after.finished_at == Some(now)
            &&& !success ==> after.pending
            &&& success ==> after.pending == r.pending
            &&& after.last_run == r.last_run && after.last_add == r.last_add
        }),
        r.reaped(Child::StillRunning, now) == r,
        !r.reaped(Child::WaitFailed, now).running,
        r.reaped(Child::WaitFailed, now).finished_at == Some(now),
{
}

/// A sidecar is taken for a run's own for as long as it is in flight, and for a
/// minute after; not otherwise.
pub proof fn sidecars_are_a_runs_own_for_a_minute(r: EnrichRunner, now: u64)
    requires
        r.finished_at is Some ==> r.finished_at->Some_0 <= now,
    ensures
        r.own_write(now as int) <==> r.running || (r.finished_at is Some && now
            - r.finished_at->Some_0 < 60 * 1000),
{
}

/// A file is due exactly when it is there, at the size and time at which it was
/// last seen, these have held for the window, and no back-off is running.
pub proof fn files_are_due_once_they_settled(
    entries: Seq<(String, Settling)>,
    stats: Seq<Option<(i64, i64)>>,
    window_ms: int,
    now: u64,
    i: int,
)
    requires
        stats.len() == entries.len(),
        0 <= i < entries.len(),
        forall|a: int, b: int|
            0 <= a < b < entries.len() ==> (#[trigger] entries[a]).0@ != (#[trigger] entries[b]).0@,
        entries[i].1.stable_since <= now,
    ensures
        ({
            let e = entries[i].1;
            due_of(entries, stats, window_ms, now as int).contains(entries[i].0@) <==> {
                &&& stats[i] is Some
                &&& stats[i]->Some_0.0 == e.size && stats[i]->Some_0.1 == e.mtime
                &&& now - e.stable_since >= window_ms
                &&& now >= e.not_before
            }
        }),
    decreases entries.len(),
{
    let n = entries.len() - 1;
    let (h, s) = (entries.drop_last(), stats.drop_last());
    let head = due_of(h, s, window_ms, now as int);
    let all = due_of(entries, stats, window_ms, now as int);
    if i < n {
        assert(h[i] == entries[i] && s[i] == stats[i]);
        assert forall|a: int, b: int| 0 <= a < b < h.len() implies (#[trigger] h[a]).0@ != (
        #[trigger] h[b]).0@ by {
            assert(entries[a].0@ != entries[b].0@);
        }
        files_are_due_once_they_settled(h, s, window_ms, now, i);
        assert(entries[i].0@ != entries[n].0@);
        if head.contains(entries[i].0@) {
            let k = choose|k: int| 0 <= k < head.len() && head[k] == entries[i].0@;
            assert(all[k] == entries[i].0@);
        }
        if all.contains(entries[i].0@) {
            let k = choose|k: int| 0 <= k < all.len() && all[k] == entries[i].0@;
            assert(head[k] == all[k]);
        }
    } else {
        assert(!head.contains(entries[n].0@)) by {
            if head.contains(entries[n].0@) {
                lemma_due_is_queued(h, s, window_ms, now as int, entries[n].0@);
                let k = choose|k: int| 0 <= k < h.len() && (#[trigger] h[k]).0@ == entries[n].0@;
                assert(entries[k].0@ != entries[n].0@);
            }
        }
        if all.len() > head.len() {
            assert(all[head.len() as int] == entries[n].0@);
        }
    }
}

proof fn lemma_due_is_queued(
    entries: Seq<(String, Settling)>,
    stats: Seq<Option<(i64, i64)>>,
    window_ms: int,
    now: int,
    path: Seq<char>,
)
    requires
        stats.len() == entries.len(),
        due_of(entries, stats, window_ms, now).contains(path),
    ensures
        exists|k: int| 0 <= k < entries.len() && (#[trigger] entries[k]).0@ == path,
    decreases entries.len(),
{
    if entries.len() > 0 {
        let (h, s) = (entries.drop_last(), stats.drop_last());
        let head = due_of(h, s, window_ms, now);
        let all = due_of(entries, stats, window_ms, now);
        let k = choose|k: int| 0 <= k < all.len() && all[k] == path;
        if k < head.len() {
            assert(head[k] == path);
            lemma_due_is_queued(h, s, window_ms, now, path);
            let m = choose|m: int| 0 <= m < h.len() && (#[trigger] h[m]).0@ == path;
            assert(entries[m].0@ == path);
        } else {
            assert(entries[entries.len() - 1].0@ == path);
        }
    }
}

/// A file that was seen as it was keeps its place in the queue; one that changed
/// starts its window over and keeps its failures; one that is gone is dropped.
pub proof fn looking_updates_the_queue(
    entries: Seq<(String, Settling)>,
    stats: Seq<Option<(i64, i64)>>,
    now: u64,
    i: int,
)
    requires
        stats.len() == entries.len(),
        0 <= i < entries.len(),
        forall|a: int, b: int|
            0 <= a < b < entries.len() ==> (#[trigger] entries[a]).0@ != (#[trigger] entries[b]).0@,
    ensures
        ({
            let left = remaining(entries, stats, now);
            let (path, e) = (entries[i].0@, entries[i].1);
            match stats[i] {
                None => !left.dom().contains(path),
                Some((size, mtime)) => {
                    &&& left.dom().contains(path)
                    &&& size == e.size && mtime == e.mtime ==> left[path] == e
                    &&& size != e.size || mtime != e.mtime ==> left[path] == (Settling {
                        size,
                        mtime,
                        stable_since: now,
                        probe_failures: e.probe_failures,
                        not_before: e.not_before,
                    })
                },
            }
        }),
    decreases entries.len(),
{
    let n = entries.len() - 1;
    let (h, s) = (entries.drop_last(), stats.drop_last());
    if i < n {
        assert(h[i] == entries[i] && s[i] == stats[i]);
        assert forall|a: int, b: int| 0 <= a < b < h.len() implies (#[trigger] h[a]).0@ != (
        #[trigger] h[b]).0@ by {
            assert(entries[a].0@ != entries[b].0@);
        }
        looking_updates_the_queue(h, s, now, i);
        assert(entries[i].0@ != entries[n].0@);
    } else {
        assert(!remaining(h, s, now).dom().contains(entries[n].0@)) by {
            if remaining(h, s, now).dom().contains(entries[n].0@) {
                lemma_left_is_queued(h, s, now, entries[n].0@);
                let k = choose|k: int| 0 <= k < h.len() && (#[trigger] h[k]).0@ == entries[n].0@;
                assert(entries[k].0@ != entries[n].0@);
            }
        }
    }
}

proof fn lemma_left_is_queued(
    entries: Seq<(String, Settling)>,
    stats: Seq<Option<(i64, i64)>>,
    now: u64,
    path: Seq<char>,
)
    requires
        stats.len() == entries.len(),
        remaining(entries, stats, now).dom().contains(path),
    ensures
        exists|k: int| 0 <= k < entries.len() && (#[trigger] entries[k]).0@ == path,
    decreases entries.len(),
{
    if entries.len() > 0 {
        let (h, s) = (entries.drop_last(), stats.drop_last());
        if remaining(h, s, now).dom().contains(path) {
            lemma_left_is_queued(h, s, now, path);
            let m = choose|m: int| 0 <= m < h.len() && (#[trigger] h[m]).0@ == path;
            assert(entries[m].0@ == path);
        } else {
            assert(entries[entries.len() - 1].0@ == path);
        }
    }
}

/// The delay doubles with each failure, from the window on, up to five minutes;
/// and a file is tried again five times.
pub proof fn delays_double(q: SettleQueue, path: Seq<char>, window_ms: int, n: nat)
    requires
        0 <= window_ms,
    ensures
        backoff(window_ms, 0) == (if window_ms < 300_000 {
            window_ms
        } else {
            300_000
        }),
        backoff(window_ms, n + 1) == (if 2 * backoff(window_ms, n) < 300_000 {
            2 * backoff(window_ms, n)
        } else {
            300_000
        }),
        q.retries_left(path) <==> q@.dom().contains(path) && q@[path].probe_failures < 5,
{
    vstd::arithmetic::power2::lemma2_to64();
    vstd::arithmetic::power2::lemma_pow2_unfold(n + 1);
    let p = vstd::arithmetic::power2::pow2(n) as int;
    let p2 = vstd::arithmetic::power2::pow2(n + 1) as int;
    assert(p2 == 2 * p);
    assert(window_ms * p2 == 2 * (window_ms * p)) by (nonlinear_arith)
        requires
            p2 == 2 * p,
    ;
    vstd::arithmetic::power2::lemma_pow2_pos(n);
    assert(0 <= window_ms * p) by (nonlinear_arith)
        requires
            0 <= window_ms,
            0 <= p,
    ;
    assert(window_ms * 1 == window_ms);
}

proof fn lemma_innermost(roots: Seq<Root>, path: Seq<char>)
    ensures
        match root_above(roots, path) {
            Some(i) => {
                &&& 0 <= i < roots.len()
                &&& paths::below(path, roots[i].path@)
                &&& forall|j: int|
                    0 <= j < roots.len() && paths::below(path, (#[trigger] roots[j]).path@)
                        ==> byte_len(roots[j].path@) <= byte_len(roots[i].path@)
            },
            None => forall|j: int|
                0 <= j < roots.len() ==> !paths::below(path, (#[trigger] roots[j]).path@),
        },
    decreases roots.len(),
{
    if roots.len() > 0 {
        let head = roots.drop_last();
        lemma_innermost(head, path);
        assert forall|j: int| 0 <= j < head.len() implies head[j] == roots[j] by {}
    }
}

/// A path belongs to the innermost root above it: no root above it has a longer
/// path. A path under no root, a root itself, and what is hidden belong to
/// none; everything else under a root does.
pub proof fn paths_belong_to_the_innermost_root(roots: Seq<Root>, path: Seq<char>)
    ensures
        match located(roots, path) {
            Some((i, rel)) => {
                &&& 0 <= i < roots.len()
                &&& paths::below(path, roots[i].path@)
                &&& rel == paths::rest_of(path, roots[i].path@)
                &&& rel.len() > 0
                &&& forall|k: int|
                    0 <= k < text::pieces(rel, '/').len() ==> !text::begins(
                        #[trigger] text::pieces(rel, '/')[k],
                        "."@,
                    )
                &&& forall|j: int|
                    0 <= j < roots.len() && paths::below(path, (#[trigger] roots[j]).path@)
                        ==> encode_utf8(roots[j].path@).len() <= encode_utf8(roots[i].path@).len()
            },
            None => forall|i: int|
                0 <= i < roots.len() && paths::below(path, (#[trigger] roots[i]).path@) && (forall|
                    j: int,
                |
                    0 <= j < roots.len() && j != i ==> !paths::below(
                        path,
                        (#[trigger] roots[j]).path@,
                    )) ==> {
                    let rel = paths::rest_of(path, roots[i].path@);
                    rel.len() == 0 || exists|k: int|
                        0 <= k < text::pieces(rel, '/').len() && text::begins(
                            #[trigger] text::pieces(rel, '/')[k],
                            "."@,
                        )
                },
        },
{
    lemma_innermost(roots, path);
}

/// What a file that turned up calls for, by its name: an .nfo, an .edl and an
/// image concern what they stand beside, an .srt the captions, a show's or a
/// season's .nfo the series, a music.toml what is below it; speaker turns call
/// for nothing, and a media file waits to settle.
pub proof fn files_call_for_what_they_are(kind: MediaKind, rel: Seq<char>, e: Seq<char>)
    requires
        paths::extension_of(extract::name_of(rel)) == Some(e),
    ensures
        ({
            let r = reaction_to(kind, rel, Presence::File);
            let name = extract::name_of(rel);
            let x = text::lowered(e);
            &&& x == "nfo"@ && kind == MediaKind::Tv && (name == "tvshow.nfo"@ || name
                == "season.nfo"@) ==> r == Reaction::IngestDirNfo
            &&& x == "nfo"@ && !(kind == MediaKind::Tv && (name == "tvshow.nfo"@ || name
                == "season.nfo"@)) ==> r == Reaction::RefreshNfo
            &&& x == "edl"@ ==> r == Reaction::RefreshEdl
            &&& x == "srt"@ ==> r == Reaction::Captions
            &&& x == "rttm"@ ==> r == Reaction::Ignore
            &&& x == "jpg"@ || x == "png"@ ==> r == Reaction::RefreshArt
            &&& x != "nfo"@ && x != "edl"@ && x != "srt"@ && x != "rttm"@ && x != "jpg"@ && x
                != "png"@ ==> {
                &&& kind == MediaKind::Music && name == "music.toml"@ ==> r
                    == Reaction::RefreshMusicMeta
                &&& !(kind == MediaKind::Music && name == "music.toml"@) ==> r == (
                if reconcile::mime_of(kind, rel) is Some {
                    Reaction::Media
                } else {
                    Reaction::Ignore
                })
            }
        }),
        reaction_to(kind, rel, Presence::Directory) == Reaction::ScanSubtree,
        reaction_to(kind, rel, Presence::Gone) == (Reaction::Remove {
            bequeath: reconcile::mime_of(kind, rel) is Some,
        }),
{
    reveal_strlit("nfo");
    reveal_strlit("edl");
    reveal_strlit("srt");
    reveal_strlit("rttm");
    reveal_strlit("jpg");
    reveal_strlit("png");
    assert("nfo"@[0] == 'n' && "edl"@[0] == 'e' && "srt"@[0] == 's' && "rttm"@[0] == 'r'
        && "jpg"@[0] == 'j' && "png"@[0] == 'p');
}

/// Artwork is a change where it is not what was stored, or is newer than the
/// extraction; embedded art is what was stored where no file stands beside it.
pub proof fn newer_art_is_a_change(
    stored: Option<Seq<char>>,
    found: Option<Seq<char>>,
    art_mtime: Option<i64>,
    updated_at: i64,
)
    ensures
        art_mtime is Some && art_mtime->Some_0 > updated_at ==> art_changed(
            stored,
            found,
            art_mtime,
            updated_at,
        ),
        found is Some && stored != found ==> art_changed(stored, found, art_mtime, updated_at),
        found is None && stored is Some && stored->Some_0 != "embedded"@ ==> art_changed(
            stored,
            found,
            art_mtime,
            updated_at,
        ),
        (art_mtime is None || art_mtime->Some_0 <= updated_at) && (stored == found || (found is None
            && stored == Some("embedded"@))) ==> !art_changed(
            stored,
            found,
            art_mtime,
            updated_at,
        ),
{
}

/// A sidecar's media file begins as the sidecar does, up to the extension.
pub proof fn sidecars_stand_beside_their_stem(stem: Seq<char>, ext: Seq<char>)
    requires
        ext.len() > 0,
        ext.last() != '.',
        stem.len() == 0 || stem.last() != '.',
    ensures
        sidecar_stem(stem + "."@ + ext, ext) == stem + "."@,
{
    reveal_strlit(".");
    let dotted = stem + "."@;
    let s = dotted + ext;
    assert(s.len() - ext.len() == dotted.len());
    assert(s.subrange(s.len() - ext.len(), s.len() as int) =~= ext);
    assert(s.take(s.len() - ext.len()) =~= dotted);
    assert(dotted.last() == '.');
    if text::ends(dotted, ext) {
        let k = dotted.len() - ext.len();
        assert(dotted.subrange(k, k + ext.len()).last() == dotted.last());
        assert(false);
    }
    assert(without_ends(dotted, ext) == dotted);
    assert(without_ends(s, ext) == dotted);
    assert(dotted.subrange(dotted.len() - 1, dotted.len() as int) =~= "."@);
    assert(dotted.take(dotted.len() - 1) =~= stem);
    if text::ends(stem, "."@) {
        let k = stem.len() - 1;
        assert(stem.subrange(k, k + 1)[0] == '.');
        assert(stem.last() == '.');
        assert(false);
    }
    assert(without_ends(stem, "."@) == stem);
}

/// A poster decorates the file it is named after, whatever the case of its
/// ending.
pub proof fn posters_decorate_their_file(
    rel: Seq<char>,
    stem: Seq<char>,
    ending: Seq<char>,
    media: Seq<char>,
)
    requires
        extract::name_of(rel) == stem + ending,
        text::ascii_lower(ending) == "-poster.jpg"@ || text::ascii_lower(ending) == "-poster.png"@,
    ensures
        decorates(rel, media) == text::begins(media, dir_slash(rel) + stem + "."@),
{
    reveal_strlit("-poster.jpg");
    reveal_strlit("-poster.png");
    let name = stem + ending;
    assert("-poster.jpg"@.len() == 11 && "-poster.png"@.len() == 11);
    assert(text::ascii_lower(ending).len() == ending.len());
    assert(name.skip(name.len() - 11) =~= ending);
    assert(name.take(name.len() - 11) =~= stem);
    assert(text::ascii_lower("-poster.jpg"@) =~= "-poster.jpg"@);
    assert(text::ascii_lower("-poster.png"@) =~= "-poster.png"@);
}

/// Any other image that counts decorates the files in its directory and one
/// level below.
pub proof fn covers_decorate_their_directory(rel: Seq<char>, media: Seq<char>)
    requires
        poster_stem(rel) is None,
        text::listed(text::lowered(extract::name_of(rel)), extract::DIR_ART_NAMES@),
    ensures
        ({
            let dir = dir_slash(rel);
            &&& !text::begins(media, dir) ==> !decorates(rel, media)
            &&& forall|rest: Seq<char>|
                !rest.contains('/') && media == dir + rest ==> decorates(rel, media)
            &&& forall|sub: Seq<char>, rest: Seq<char>|
                #![trigger dir + sub + "/"@ + rest]
                !sub.contains('/') && !rest.contains('/') && media == dir + sub + "/"@ + rest
                    ==> decorates(rel, media)
        }),
{
    reveal_strlit("/");
    let dir = dir_slash(rel);
    assert forall|rest: Seq<char>| !rest.contains('/') && media == dir + rest implies decorates(
        rel,
        media,
    ) by {
        assert(media.subrange(0, dir.len() as int) =~= dir);
        assert(media.skip(dir.len() as int) =~= rest);
        lemma_no_slashes(rest);
    }
    assert forall|sub: Seq<char>, rest: Seq<char>|
        #![trigger dir + sub + "/"@ + rest]
        !sub.contains('/') && !rest.contains('/') && media == dir + sub + "/"@ + rest implies decorates(
        rel,
        media,
    ) by {
        assert(media.subrange(0, dir.len() as int) =~= dir);
        assert(media.skip(dir.len() as int) =~= sub + "/"@ + rest);
        lemma_no_slashes(sub);
        lemma_slashes_behind(sub + "/"@, rest);
        assert((sub + "/"@).drop_last() =~= sub);
    }
}

proof fn lemma_no_slashes(s: Seq<char>)
    requires
        !s.contains('/'),
    ensures
        slashes(s) == 0,
    decreases s.len(),
{
    if s.len() > 0 {
        assert(s.last() == s[s.len() - 1]);
        assert(s.contains(s.last()));
        assert forall|i: int| 0 <= i < s.drop_last().len() implies s.drop_last()[i] != '/' by {
            assert(s.contains(s[i]));
        }
        lemma_no_slashes(s.drop_last());
    }
}

proof fn lemma_slashes_behind(a: Seq<char>, b: Seq<char>)
    requires
        !b.contains('/'),
    ensures
        slashes(a + b) == slashes(a),
    decreases b.len(),
{
    if b.len() > 0 {
        assert(b.contains(b[b.len() - 1]));
        assert forall|i: int| 0 <= i < b.drop_last().len() implies b.drop_last()[i] != '/' by {
            assert(b.contains(b[i]));
        }
        lemma_slashes_behind(a, b.drop_last());
        assert((a + b).drop_last() =~= a + b.drop_last());
    } else {
        assert(a + b =~= a);
    }
}

} // verus!

//! Memory for the loudness step, kept beside the catalog as
//! `enrich-loudness.json`: for every file it has looked at, the file's
//! size and mtime at the time and what was found. Measuring costs a full
//! decode of the audio, so a file whose stamp has not moved is never
//! measured twice; a changed file earns a fresh look (and one that
//! already carries a raised track is recognised from the track itself,
//! so losing this memory costs time, never a second raised track).
//!
//! It also holds `since`: the step is for media arriving from now on, and
//! when the config names no date, "now" is the first run, remembered here.
use vstd::prelude::*;
use crate::db::queries::files;
use crate::enrich::captions_state::Stamp;
use crate::keyed;
use crate::text;

verus! {

pub const FILE_NAME: &'static str = "enrich-loudness.json";

pub const VERSION: u32 = 1;

/// What was measured. Each level is carried as the bits of its IEEE 754
/// double.
#[derive(Debug, Clone, Copy, PartialEq, Eq, Structural)]
pub struct Levels {
    pub integrated: u64,
    pub true_peak: u64,
    pub range: u64,
}

#[derive(Debug)]
pub struct Entry {
    /// The file as it was named when looked at (the key drops the
    /// extension, so an .mkv remuxed to .mp4 keeps its entry).
    pub file: String,
    pub stamp: Stamp,
    /// What was concluded — for a human reading the file.
    pub note: String,
    pub measured: Option<Levels>,
    /// The gain of the raised track, if one was made.
    pub gain: Option<u64>,
}

#[verifier::ext_equal]
pub struct EntryView {
    pub file: Seq<char>,
    pub stamp: Stamp,
    pub note: Seq<char>,
    pub measured: Option<Levels>,
    pub gain: Option<u64>,
}

impl View for Entry {
    type V = EntryView;

    open spec fn view(&self) -> EntryView {
        EntryView {
            file: self.file@,
            stamp: self.stamp,
            note: self.note@,
            measured: self.measured,
            gain: self.gain,
        }
    }
}

/// A file's path without its extension.
pub open spec fn key_of(media: Seq<char>) -> Seq<char> {
    match files::without_extension(media) {
        Some(s) => s,
        None => media,
    }
}

pub fn key(media: &str) -> (r: String)
    ensures
        r@ == key_of(media@),
{
    match files::strip_extension(media) {
        Some(s) => s,
        None => media.to_owned(),
    }
}

#[derive(Debug)]
pub struct LoudnessState {
    since: Option<i64>,
    entries: Vec<(String, Entry)>,
    dirty: bool,
}

impl LoudnessState {
    /// No key twice.
    pub closed spec fn wf(&self) -> bool {
        keyed::distinct(keyed::keys_of(self.entries@))
    }

    /// What is remembered, by the path without its extension.
    pub closed spec fn known(&self) -> Map<Seq<char>, EntryView> {
        keyed::mapped(self.entries@)
    }

    /// The remembered first-run time.
    pub closed spec fn start(&self) -> Option<i64> {
        self.since
    }

    /// Whether there is anything to write.
    pub closed spec fn changed(&self) -> bool {
        self.dirty
    }

    /// The memory as it was stored; of another version, or unreadable,
    /// means empty, which costs fresh looks only. Of entries under one key
    /// the last counts.
    pub fn load(version: u32, since: Option<i64>, stored: Vec<(String, Entry)>) -> (r:
        LoudnessState)
        ensures
            r.wf(),
            r.known() == (if version == VERSION {
                keyed::mapped(stored@)
            } else {
                Map::empty()
            }),
            r.start() == (if version == VERSION {
                since
            } else {
                None
            }),
            !r.changed(),
    {
        if version != VERSION {
            let none: Vec<(String, Entry)> = Vec::new();
            assert(keyed::keys_of(none@) =~= seq![]);
            return LoudnessState { since: None, entries: none, dirty: false };
        }
        LoudnessState { since, entries: keyed::gathered(stored), dirty: false }
    }

    /// Whether an earlier run has already fixed the starting point.
    pub fn started(&self) -> (r: bool)
        ensures
            r == (self.start() is Some),
    {
        self.since.is_some()
    }

    /// The remembered first-run time, set to `now` on the first call.
    pub fn since_or_start(&mut self, now: i64) -> (r: i64)
        requires
            old(self).wf(),
        ensures
            final(self).wf(),
            final(self).known() == old(self).known(),
            final(self).start() == Some(r),
            match old(self).start() {
                Some(t) => r == t && final(self).changed() == old(self).changed(),
                None => r == now && final(self).changed(),
            },
    {
        match self.since {
            Some(t) => t,
            None => {
                self.dirty = true;
                self.since = Some(now);
                now
            },
        }
    }

    /// Looked at already, and unchanged since; `stamp` is the file as it is
    /// now, none when it cannot be looked at.
    pub fn settled(&self, media: &str, stamp: Option<Stamp>) -> (r: bool)
        requires
            self.wf(),
        ensures
            r == (stamp is Some && self.known().dom().contains(key_of(media@)) && self.known()[
                key_of(media@)
            ].stamp == stamp->Some_0),
    {
        let k = key(media);
        proof {
            keyed::lemma_mapped(self.entries@);
        }
        match (keyed::find(&self.entries, k.as_str()), stamp) {
            (Some(i), Some(s)) => self.entries[i].1.stamp == s,
            _ => false,
        }
    }

    /// Remember the conclusion for the file as it is on disk now; one that
    /// cannot be looked at is not remembered.
    pub fn record(
        &mut self,
        media: &str,
        stamp: Option<Stamp>,
        note: &str,
        measured: Option<Levels>,
        gain: Option<u64>,
    )
        requires
            old(self).wf(),
        ensures
            final(self).wf(),
            final(self).start() == old(self).start(),
            match stamp {
                Some(s) => final(self).changed() && final(self).known() == old(
                    self,
                ).known().insert(
                    key_of(media@),
                    (EntryView { file: media@, stamp: s, note: note@, measured, gain }),
                ),
                None => final(self).known() == old(self).known() && final(self).changed() == old(
                    self,
                ).changed(),
            },
    {
        if let Some(stamp) = stamp {
            let entry = Entry {
                file: media.to_owned(),
                stamp,
                note: note.to_owned(),
                measured,
                gain,
            };
            let k = key(media);
            keyed::put(&mut self.entries, k, entry);
            self.dirty = true;
        }
    }

    /// The file was found already done: keep what an earlier look
    /// measured and refresh the stamp, or note it if this is news.
    pub fn confirm_done(&mut self, media: &str, stamp: Option<Stamp>)
        requires
            old(self).wf(),
        ensures
            final(self).wf(),
            final(self).start() == old(self).start(),
            match stamp {
                Some(s) => final(self).changed() && final(self).known() == old(
                    self,
                ).known().insert(key_of(media@), confirmed(old(self).known(), media@, s)),
                None => final(self).known() == old(self).known() && final(self).changed() == old(
                    self,
                ).changed(),
            },
    {
        let stamp = match stamp {
            Some(s) => s,
            None => {
                return;
            },
        };
        let k = key(media);
        proof {
            keyed::lemma_mapped(self.entries@);
        }
        match keyed::find(&self.entries, k.as_str()) {
            Some(i) => {
                if self.entries[i].1.gain.is_some() {
                    let entry = Entry {
                        file: media.to_owned(),
                        stamp,
                        note: self.entries[i].1.note.clone(),
                        measured: self.entries[i].1.measured,
                        gain: self.entries[i].1.gain,
                    };
                    keyed::put(&mut self.entries, k, entry);
                    self.dirty = true;
                    return;
                }
            },
            None => {},
        }
        self.record(media, Some(stamp), "normalized earlier", None, None);
    }

    /// The names of the files that are remembered.
    pub fn names(&self) -> (r: Vec<String>)
        requires
            self.wf(),
        ensures
            r@.len() == self.held().len(),
            forall|i: int|
                0 <= i < r@.len() ==> (#[trigger] r@[i])@ == self.held()[i].1@.file,
    {
        let mut out: Vec<String> = Vec::new();
        let mut i: usize = 0;
        while i < self.entries.len()
            invariant
                i <= self.entries.len(),
                out@.len() == i,
                forall|k: int|
                    0 <= k < i ==> (#[trigger] out@[k])@ == self.entries@[k].1@.file,
            decreases self.entries.len() - i,
        {
            out.push(self.entries[i].1.file.clone());
            i += 1;
        }
        out
    }

    /// The entries in the order of [`LoudnessState::names`].
    pub closed spec fn held(&self) -> Seq<(String, Entry)> {
        self.entries@
    }

    /// Drop entries whose file is gone: `exists` says of each name, in
    /// order, whether its file is still there.
    pub fn forget_missing(&mut self, exists: &Vec<bool>)
        requires
            old(self).wf(),
            exists@.len() == old(self).held().len(),
        ensures
            final(self).wf(),
            final(self).start() == old(self).start(),
            final(self).known() == old(self).known().restrict(
                keyed::flagged(keyed::keys_of(old(self).held()), exists@),
            ),
            final(self).changed() == (old(self).changed() || final(self).known() != old(
                self,
            ).known()),
    {
        let mut entries: Vec<(String, Entry)> = Vec::new();
        std::mem::swap(&mut entries, &mut self.entries);
        let before = entries.len();
        let entries = keyed::kept(entries, exists);
        if entries.len() != before {
            self.dirty = true;
        }
        self.entries = entries;
    }

    pub fn is_dirty(&self) -> (r: bool)
        ensures
            r == self.changed(),
    {
        self.dirty
    }

    /// The remembered first-run time and the entries, for storing.
    pub fn stored(&self) -> (r: (Option<i64>, &Vec<(String, Entry)>))
        requires
            self.wf(),
        ensures
            r.0 == self.start(),
            keyed::mapped(r.1@) == self.known(),
    {
        (self.since, &self.entries)
    }
}

/// The entry of a file that was found already done.
pub open spec fn confirmed(
    known: Map<Seq<char>, EntryView>,
    media: Seq<char>,
    stamp: Stamp,
) -> EntryView {
    let k = key_of(media);
    if known.dom().contains(k) && known[k].gain is Some {
        EntryView { file: media, stamp, ..known[k] }
    } else {
        EntryView {
            file: media,
            stamp,
            note: "normalized earlier"@,
            measured: None,
            gain: None,
        }
    }
}

/// An .mkv remuxed to .mp4 keeps its entry: names that differ in the
/// extension alone share one.
pub proof fn entries_survive_a_remux(dir: Seq<char>, stem: Seq<char>, a: Seq<char>, b: Seq<char>)
    requires
        stem.len() > 0,
        !stem.contains('/'),
        !a.contains('/') && !a.contains('.'),
        !b.contains('/') && !b.contains('.'),
        dir.len() == 0 || dir.last() == '/',
    ensures
        key_of(dir + stem + "."@ + a) == dir + stem,
        key_of(dir + stem + "."@ + a) == key_of(dir + stem + "."@ + b),
{
    lemma_key(dir, stem, a);
    lemma_key(dir, stem, b);
}

proof fn lemma_key(dir: Seq<char>, stem: Seq<char>, ext: Seq<char>)
    requires
        stem.len() > 0,
        !stem.contains('/'),
        !ext.contains('/') && !ext.contains('.'),
        dir.len() == 0 || dir.last() == '/',
    ensures
        key_of(dir + stem + "."@ + ext) == dir + stem,
{
    reveal_strlit(".");
    reveal_strlit("/");
    let path = dir + stem + "."@ + ext;
    let name = stem + "."@ + ext;
    assert(name == path.skip(dir.len() as int));
    assert forall|i: int| dir.len() <= i < path.len() implies path[i] != '/' by {
        assert(path[i] == name[i - dir.len()]);
        let k = i - dir.len();
        if k < stem.len() {
            assert(stem[k] == name[k]);
            assert(stem.contains(stem[k]));
        } else if k > stem.len() {
            assert(ext[k - stem.len() - 1] == name[k]);
            assert(ext.contains(ext[k - stem.len() - 1]));
        } else {
            assert(name[k] == '.');
        }
    }
    // The name starts after the directory.
    assert(files::name_start(path) == dir.len()) by {
        if dir.len() > 0 {
            let at = dir.len() - 1;
            assert(path[at] == '/');
            assert(path.subrange(at, at + 1) =~= "/"@);
            assert forall|j: int| text::occurs_at(path, "/"@, j) implies j <= at by {
                assert(path.subrange(j, j + 1)[0] == path[j]);
                assert("/"@[0] == '/');
            }
            text::lemma_rcut_once(path, "/"@, at);
        } else {
            assert forall|j: int| !text::occurs_at(path, "/"@, j) by {
                if text::occurs_at(path, "/"@, j) {
                    assert(path.subrange(j, j + 1)[0] == path[j]);
                    assert("/"@[0] == '/');
                }
            }
        }
    }
    // The extension starts after the last dot.
    let at: int = stem.len() as int;
    assert(name[at] == '.');
    assert(name.subrange(at, at + 1) =~= "."@);
    assert forall|j: int| text::occurs_at(name, "."@, j) implies j <= at by {
        assert(name.subrange(j, j + 1)[0] == name[j]);
        assert("."@[0] == '.');
        if j > at {
            assert(name[j] == ext[j - at - 1]);
            assert(ext.contains(ext[j - at - 1]));
        }
    }
    text::lemma_rcut_once(name, "."@, at);
    assert(name.take(at) =~= stem);
    assert(path.take(dir.len() as int) =~= dir);
    assert(path.skip(dir.len() as int) =~= name);
}

/// A file found already done keeps what was measured of it and how far it was
/// raised, under the name and the stamp that it has now.
pub proof fn measurements_are_kept(
    known: Map<Seq<char>, EntryView>,
    media: Seq<char>,
    stamp: Stamp,
)
    requires
        known.dom().contains(key_of(media)),
        known[key_of(media)].gain is Some,
    ensures
        ({
            let e = confirmed(known, media, stamp);
            let was = known[key_of(media)];
            &&& e.file == media && e.stamp == stamp
            &&& e.gain == was.gain && e.measured == was.measured && e.note == was.note
        }),
{
}

/// One that was not known to be done is noted as such, with nothing measured.
pub proof fn news_is_noted(known: Map<Seq<char>, EntryView>, media: Seq<char>, stamp: Stamp)
    requires
        known.dom().contains(key_of(media)) ==> known[key_of(media)].gain is None,
    ensures
        confirmed(known, media, stamp).file == media,
        confirmed(known, media, stamp).stamp == stamp,
        confirmed(known, media, stamp).measured is None,
        confirmed(known, media, stamp).gain is None,
        confirmed(known, media, stamp).note == "normalized earlier"@,
{
}

} // verus!

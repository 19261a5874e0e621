//! Per-pair memory for the caption steps, kept beside the catalog as
//! `enrich-captions.json`: for every video with a same-name .srt, the size
//! and mtime of both files at the last look, and what was concluded. A
//! pair whose stamps have not moved is skipped without reading the
//! sidecar or probing the video, so a run over an untouched library costs
//! its directory walk and nothing more. Anything that changes either file
//! — a corrected sidecar, a remux, a title strip — moves a stamp and earns
//! a fresh look. Dry runs read the memory but never write it, and a run
//! that fails on a file records nothing for it, so it is retried.
//!
//! The memory also carries a `canonical` hash: the sidecar text known to
//! be what the video's track says. For files this tool embedded it
//! mirrors the record inside the file; for files embedded before that
//! record existed, or whose sidecar was extracted from the track, it is
//! the only provenance there is — and what lets a later correction of
//! such a sidecar be recognised and embedded.
use vstd::prelude::*;
use crate::keyed;
use crate::paths;
use crate::text;

verus! {

pub const FILE_NAME: &'static str = "enrich-captions.json";

pub const VERSION: u32 = 1;

/// Size and modification time of a file, as last seen.
#[derive(Debug, Clone, Copy, PartialEq, Eq, Structural)]
pub struct Stamp {
    pub size: u64,
    pub mtime_secs: i64,
    pub mtime_nanos: u32,
}

#[derive(Debug)]
pub struct Entry {
    pub media: Stamp,
    pub srt: Stamp,
    /// What the last look concluded ("embedded", "replaced", "adopted",
    /// "extracted", or the skip reason) — for a human reading the file;
    /// the decision to skip rests on the stamps alone.
    pub note: String,
    /// SHA-256 of the sidecar text the video's track is known to carry.
    pub canonical: Option<String>,
}

#[verifier::ext_equal]
pub struct EntryView {
    pub media: Stamp,
    pub srt: Stamp,
    pub note: Seq<char>,
    pub canonical: Option<Seq<char>>,
}

impl View for Entry {
    type V = EntryView;

    open spec fn view(&self) -> EntryView {
        EntryView {
            media: self.media,
            srt: self.srt,
            note: self.note@,
            canonical: text::opt_text(self.canonical),
        }
    }
}

/// The entries by the video's path, no path twice.
#[derive(Debug)]
pub struct CaptionsState {
    entries: Vec<(String, Entry)>,
    seen: Vec<String>,
    dirty: bool,
}

impl CaptionsState {
    /// No path twice.
    pub closed spec fn wf(&self) -> bool {
        keyed::distinct(keyed::keys_of(self.entries@))
    }

    /// What is remembered, by the video's path.
    pub closed spec fn known(&self) -> Map<Seq<char>, EntryView> {
        keyed::mapped(self.entries@)
    }

    /// The paths that this run encountered.
    pub closed spec fn met(&self) -> Set<Seq<char>> {
        text::texts(self.seen@).to_set()
    }

    /// Whether there is anything to write.
    pub closed spec fn changed(&self) -> bool {
        self.dirty
    }

    /// The memory as it was stored; nothing stored, or nothing readable,
    /// means empty, which only costs one full look. Of entries under one
    /// path the last counts.
    pub fn load(version: u32, stored: Vec<(String, Entry)>) -> (r: CaptionsState)
        ensures
            r.wf(),
            r.known() == (if version == VERSION {
                keyed::mapped(stored@)
            } else {
                Map::empty()
            }),
            r.met() == Set::<Seq<char>>::empty(),
            !r.changed(),
    {
        let entries: Vec<(String, Entry)> = if version == VERSION {
            keyed::gathered(stored)
        } else {
            Vec::new()
        };
        assert(version != VERSION ==> keyed::keys_of(entries@) =~= seq![]);
        let r = CaptionsState { entries, seen: Vec::new(), dirty: false };
        assert(r.met() =~= Set::<Seq<char>>::empty());
        r
    }

    fn meet(&mut self, media: &str)
        ensures
            final(self).met() == old(self).met().insert(media@),
            final(self).entries == old(self).entries,
            final(self).dirty == old(self).dirty,
    {
        let ghost before = text::texts(self.seen@);
        text::push_text(&mut self.seen, media);
        assert(before.push(media@).to_set() =~= before.to_set().insert(media@)) by {
            let after = before.push(media@);
            assert forall|k: Seq<char>| before.to_set().insert(media@).contains(k) implies
                #[trigger] after.to_set().contains(k) by {
                if k == media@ {
                    assert(after[before.len() as int] == k);
                } else {
                    let i = before.index_of(k);
                    assert(after[i] == k);
                }
            }
        }
    }

    /// Whether this pair looks exactly as it did at the last look. Marks
    /// the pair as seen either way.
    pub fn unchanged(&mut self, media: &str, media_stamp: Stamp, srt_stamp: Stamp) -> (r: bool)
        requires
            old(self).wf(),
        ensures
            final(self).wf(),
            final(self).known() == old(self).known(),
            final(self).met() == old(self).met().insert(media@),
            final(self).changed() == old(self).changed(),
            r == (old(self).known().dom().contains(media@) && old(self).known()[media@].media
                == media_stamp && old(self).known()[media@].srt == srt_stamp),
    {
        self.meet(media);
        proof {
            keyed::lemma_mapped(self.entries@);
        }
        match keyed::find(&self.entries, media) {
            Some(i) => self.entries[i].1.media == media_stamp && self.entries[i].1.srt
                == srt_stamp,
            None => false,
        }
    }

    /// `canonical` None keeps whatever hash was remembered before: a skip
    /// does not unlearn provenance.
    pub fn record(
        &mut self,
        media: &str,
        media_stamp: Stamp,
        srt_stamp: Stamp,
        note: &str,
        canonical: Option<String>,
    )
        requires
            old(self).wf(),
        ensures
            final(self).wf(),
            final(self).known() == old(self).known().insert(
                media@,
                (EntryView {
                    media: media_stamp,
                    srt: srt_stamp,
                    note: note@,
                    canonical: (if canonical is Some {
                        text::opt_text(canonical)
                    } else {
                        canonical_in(old(self).known(), media@)
                    }),
                }),
            ),
            final(self).met() == old(self).met().insert(media@),
            final(self).changed(),
    {
        let kept = match canonical {
            Some(c) => Some(c),
            None => self.canonical_hash(media),
        };
        self.meet(media);
        let entry = Entry {
            media: media_stamp,
            srt: srt_stamp,
            note: note.to_owned(),
            canonical: kept,
        };
        keyed::put(&mut self.entries, media.to_owned(), entry);
        self.dirty = true;
    }

    /// The sidecar hash the video's track is known to carry, if remembered.
    pub fn canonical_hash(&self, media: &str) -> (r: Option<String>)
        requires
            self.wf(),
        ensures
            text::opt_text(r) == canonical_in(self.known(), media@),
    {
        proof {
            keyed::lemma_mapped(self.entries@);
        }
        match keyed::find(&self.entries, media) {
            Some(i) => match &self.entries[i].1.canonical {
                Some(c) => Some(c.clone()),
                None => None,
            },
            None => None,
        }
    }

    /// Drop entries under `roots` that this run did not encounter: the
    /// video or its sidecar is gone. Roots not walked keep their entries.
    pub fn forget_unseen_under(&mut self, roots: &Vec<String>)
        requires
            old(self).wf(),
        ensures
            final(self).wf(),
            final(self).known() == old(self).known().restrict(
                Set::new(
                    |k: Seq<char>|
                        old(self).met().contains(k) || !under_any(k, text::texts(roots@)),
                ),
            ),
            final(self).met() == old(self).met(),
            final(self).changed() == (old(self).changed() || final(self).known() != old(
                self,
            ).known()),
    {
        let ghost all = self.entries@;
        let ghost keys = keyed::keys_of(all);
        let ghost keep = Set::new(
            |k: Seq<char>| self.met().contains(k) || !under_any(k, text::texts(roots@)),
        );
        let mut flags: Vec<bool> = Vec::new();
        let mut i: usize = 0;
        while i < self.entries.len()
            invariant
                i <= self.entries.len(),
                *self == *old(self),
                keys == keyed::keys_of(self.entries@),
                flags@.len() == i,
                forall|k: int|
                    0 <= k < i ==> (#[trigger] flags@[k]) == (old(self).met().contains(keys[k])
                        || !under_any(keys[k], text::texts(roots@))),
            decreases self.entries.len() - i,
        {
            let key = self.entries[i].0.as_str();
            let met = text::among(&self.seen, key);
            let under = is_under_any(key, roots);
            flags.push(met || !under);
            i += 1;
        }
        let mut entries: Vec<(String, Entry)> = Vec::new();
        std::mem::swap(&mut entries, &mut self.entries);
        let before = entries.len();
        let entries = keyed::kept(entries, &flags);
        if entries.len() != before {
            self.dirty = true;
        }
        self.entries = entries;
        proof {
            keyed::lemma_mapped(all);
            let m = keyed::mapped(all);
            assert forall|k: Seq<char>| m.dom().contains(k) implies (#[trigger] keyed::flagged(
                keys,
                flags@,
            ).contains(k) <==> keep.contains(k)) by {
                let j = choose|j: int| 0 <= j < all.len() && #[trigger] all[j].0@ == k;
                assert(keys[j] == k);
                if keyed::flagged(keys, flags@).contains(k) {
                    let n = choose|n: int|
                        0 <= n < keys.len() && flags@[n] && #[trigger] keys[n] == k;
                    assert(flags@[n]);
                }
                if keep.contains(k) {
                    assert(flags@[j]);
                }
            }
            assert(m.restrict(keyed::flagged(keys, flags@)) =~= m.restrict(keep));
        }
    }

    pub fn len(&self) -> (r: usize)
        requires
            self.wf(),
        ensures
            r == self.known().dom().len(),
    {
        proof {
            keyed::lemma_size(self.entries@);
        }
        self.entries.len()
    }

    pub fn is_dirty(&self) -> (r: bool)
        ensures
            r == self.changed(),
    {
        self.dirty
    }

    /// The entries, for storing; no path twice.
    pub fn stored(&self) -> (r: &Vec<(String, Entry)>)
        requires
            self.wf(),
        ensures
            keyed::mapped(r@) == self.known(),
            keyed::distinct(keyed::keys_of(r@)),
    {
        &self.entries
    }
}

pub open spec fn canonical_in(known: Map<Seq<char>, EntryView>, media: Seq<char>) -> Option<
    Seq<char>,
> {
    if known.dom().contains(media) {
        known[media].canonical
    } else {
        None
    }
}

pub open spec fn under_any(path: Seq<char>, roots: Seq<Seq<char>>) -> bool {
    exists|i: int| 0 <= i < roots.len() && paths::below(path, #[trigger] roots[i])
}

fn is_under_any(path: &str, roots: &Vec<String>) -> (r: bool)
    ensures
        r == under_any(path@, text::texts(roots@)),
{
    let ghost rs = text::texts(roots@);
    let mut i: usize = 0;
    while i < roots.len()
        invariant
            i <= roots.len(),
            rs == text::texts(roots@),
            forall|k: int| 0 <= k < i ==> !paths::below(path@, #[trigger] rs[k]),
        decreases roots.len() - i,
    {
        assert(rs[i as int] == roots@[i as int]@);
        if paths::is_below(path, roots[i].as_str()) {
            return true;
        }
        i += 1;
    }
    false
}

// -------------------------------------------------------------------- laws

/// A pair that was recorded and has not moved since is not looked at again.
pub proof fn recorded_pairs_are_unchanged(
    known: Map<Seq<char>, EntryView>,
    media: Seq<char>,
    entry: EntryView,
)
    ensures
        ({
            let after = known.insert(media, entry);
            after.dom().contains(media) && after[media].media == entry.media && after[media].srt
                == entry.srt
        }),
{
}

/// A skip does not unlearn provenance: recording without a hash keeps the
/// one that was remembered.
pub proof fn skips_keep_provenance(
    known: Map<Seq<char>, EntryView>,
    media: Seq<char>,
    media_stamp: Stamp,
    srt: Stamp,
    note: Seq<char>,
)
    ensures
        canonical_in(
            known.insert(
                media,
                EntryView {
                    media: media_stamp,
                    srt,
                    note,
                    canonical: canonical_in(known, media),
                },
            ),
            media,
        ) == canonical_in(known, media),
{
}

} // verus!

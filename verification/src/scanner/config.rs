//! The scanner's configuration, once it is read.
use vstd::prelude::*;
use crate::db::models;
use crate::db::models::MediaKind;
use crate::db::open;
use crate::paths;
use crate::text;

verus! {

#[derive(Debug)]
pub struct Config {
    /// Defaults to ~/Library/Application Support/mediaserver/media.db
    pub db_path: Option<String>,
    pub roots: Vec<RootConfig>,
    /// How long a file's size must stay unchanged before extraction (ms).
    pub settle_ms: u64,
    /// Full reconcile interval, hours. 0 disables the periodic pass.
    pub reconcile_interval_hours: u64,
    pub ffprobe_path: String,
    /// Optional: run media-enrich automatically when new media appears.
    pub enrich: Option<EnrichConfig>,
}

#[derive(Debug)]
pub struct EnrichConfig {
    /// Master switch; the section can stay in the file with auto = false.
    pub auto: bool,
    /// The media-enrich binary (name on PATH or absolute path). It inherits
    /// the scanner's environment, so TMDB_API_KEY flows through.
    pub command: String,
    /// Quiet period after the last new-media event before running, so a
    /// burst of files (a season drop) produces one run.
    pub quiet_secs: u64,
    /// Floor between consecutive runs.
    pub min_interval_secs: u64,
    /// Read by media-enrich (which shares this file): neutralize embedded
    /// container titles in video files. Accepted here so the strict parser
    /// allows it; the scanner itself does not act on it.
    pub strip_titles: bool,
    /// Read by media-enrich: embed same-name .srt sidecars into MP4s that
    /// have no subtitle stream. Accepted here; the scanner does not act on it.
    pub embed_subtitles: bool,
    /// Read by media-enrich: remux MKV files to MP4. Accepted here; the
    /// scanner does not act on it.
    pub remux_mkv: bool,
    /// Read by media-enrich: extract embedded text subtitles to .srt
    /// sidecars (default on). Accepted here; the scanner does not act on it.
    pub extract_subtitles: bool,
    /// Read by media-enrich: ffmpeg binary for subtitle embedding and remuxing.
    pub ffmpeg_path: Option<String>,
}

#[derive(Debug)]
pub struct RootConfig {
    pub path: String,
    pub kind: String,
}

pub const DEFAULT_ENRICH_COMMAND: &'static str = "media-enrich";

pub const DEFAULT_QUIET_SECS: u64 = 60;

pub const DEFAULT_MIN_INTERVAL_SECS: u64 = 600;

pub const DEFAULT_SETTLE_MS: u64 = 2000;

pub const DEFAULT_RECONCILE_HOURS: u64 = 6;

pub const DEFAULT_FFPROBE: &'static str = "ffprobe";

/// What makes a configuration unusable.
#[derive(Debug)]
pub enum ConfigError {
    /// config has no [[roots]] entries
    NoRoots,
    /// kind must be movies, music, or tv
    UnknownKind { path: String, kind: String },
}

/// The media kind that a word names.
pub open spec fn kind_named(word: Seq<char>) -> Option<MediaKind> {
    if word == MediaKind::Movies.name() {
        Some(MediaKind::Movies)
    } else if word == MediaKind::Music.name() {
        Some(MediaKind::Music)
    } else if word == MediaKind::Tv.name() {
        Some(MediaKind::Tv)
    } else {
        None
    }
}

fn kind_of(word: &str) -> (r: Option<MediaKind>)
    ensures
        r == kind_named(word@),
{
    let r = MediaKind::parse(word);
    proof {
        models::media_kind_round_trip(MediaKind::Movies, MediaKind::Music);
        models::media_kind_round_trip(MediaKind::Movies, MediaKind::Tv);
        models::media_kind_round_trip(MediaKind::Music, MediaKind::Tv);
    }
    r
}

/// The first root whose kind no word of the format names.
pub open spec fn first_unknown(roots: Seq<RootConfig>) -> Option<int>
    decreases roots.len(),
{
    if roots.len() == 0 {
        None
    } else {
        match first_unknown(roots.drop_last()) {
            Some(i) => Some(i),
            None => if kind_named(roots.last().kind@) is None {
                Some(roots.len() - 1)
            } else {
                None
            },
        }
    }
}

proof fn lemma_known(roots: Seq<RootConfig>)
    requires
        first_unknown(roots) is None,
    ensures
        forall|i: int| 0 <= i < roots.len() ==> kind_named((#[trigger] roots[i]).kind@) is Some,
    decreases roots.len(),
{
    if roots.len() > 0 {
        lemma_known(roots.drop_last());
        assert forall|i: int| 0 <= i < roots.len() implies kind_named(
            (#[trigger] roots[i]).kind@,
        ) is Some by {
            if i < roots.len() - 1 {
                assert(roots.drop_last()[i] == roots[i]);
            }
        }
    }
}

/// A text without the slashes at its end.
pub open spec fn unslashed(s: Seq<char>) -> Seq<char>
    decreases s.len(),
{
    if s.len() > 0 && s.last() == '/' {
        unslashed(s.drop_last())
    } else {
        s
    }
}

fn trim_slashes(s: &str) -> (r: String)
    ensures
        r@ == unslashed(s@),
{
    let v = text::chars_of(s);
    let mut n: usize = v.len();
    assert(v@.take(n as int) =~= s@);
    while n > 0 && v[n - 1] == '/'
        invariant
            n <= v.len(),
            unslashed(v@.take(n as int)) == unslashed(s@),
        decreases n,
    {
        assert(v@.take(n as int).drop_last() =~= v@.take(n - 1));
        n -= 1;
    }
    let r = text::string_of(&v, 0, n);
    assert(r@ =~= v@.take(n as int));
    r
}

impl Config {
    pub open spec fn usable(self) -> bool {
        self.roots@.len() > 0 && first_unknown(self.roots@) is None
    }

    /// Whether the configuration can be used: it has roots, and the kind of
    /// each is movies, music, or tv.
    pub fn check(&self) -> (r: Result<(), ConfigError>)
        ensures
            match r {
                Ok(()) => self.usable(),
                Err(ConfigError::NoRoots) => self.roots@.len() == 0,
                Err(ConfigError::UnknownKind { path, kind }) => self.roots@.len() > 0 && (
                first_unknown(self.roots@) matches Some(i) && path@ == self.roots@[i].path@ && kind@
                    == self.roots@[i].kind@),
            },
    {
        if self.roots.len() == 0 {
            return Err(ConfigError::NoRoots);
        }
        let mut i: usize = 0;
        assert(self.roots@.take(0) =~= seq![]);
        while i < self.roots.len()
            invariant
                i <= self.roots.len(),
                self.roots.len() > 0,
                first_unknown(self.roots@.take(i as int)) is None,
            decreases self.roots.len() - i,
        {
            let root = &self.roots[i];
            proof {
                assert(self.roots@.take(i + 1).drop_last() =~= self.roots@.take(i as int));
                assert(self.roots@.take(i + 1).last() == *root);
            }
            if kind_of(root.kind.as_str()).is_none() {
                proof {
                    lemma_first_stays(self.roots@, i + 1);
                }
                return Err(
                    ConfigError::UnknownKind { path: root.path.clone(), kind: root.kind.clone() },
                );
            }
            i += 1;
        }
        assert(self.roots@.take(i as int) =~= self.roots@);
        Ok(())
    }

    /// The catalog's place: as configured, else the usual one below `home`.
    pub fn db_path(&self, home: &str) -> (r: String)
        ensures
            r@ == (match self.db_path {
                Some(p) => p@,
                None => paths::join_of(
                    home@,
                    "Library/Application Support/mediaserver/media.db"@,
                ),
            }),
    {
        match &self.db_path {
            Some(p) => p.clone(),
            None => open::default_db_path(home),
        }
    }

    /// Roots as (absolute path string, kind), for syncing with the catalog.
    pub fn root_specs(&self) -> (r: Vec<(String, MediaKind)>)
        requires
            self.usable(),
        ensures
            r@.len() == self.roots@.len(),
            forall|i: int|
                0 <= i < r@.len() ==> (#[trigger] r@[i]).0@ == unslashed(self.roots@[i].path@)
                    && Some(r@[i].1) == kind_named(self.roots@[i].kind@),
    {
        proof {
            lemma_known(self.roots@);
        }
        let mut out: Vec<(String, MediaKind)> = Vec::new();
        let mut i: usize = 0;
        while i < self.roots.len()
            invariant
                i <= self.roots.len(),
                out@.len() == i,
                forall|k: int|
                    0 <= k < self.roots@.len() ==> kind_named(
                        (#[trigger] self.roots@[k]).kind@,
                    ) is Some,
                forall|k: int|
                    0 <= k < i ==> (#[trigger] out@[k]).0@ == unslashed(self.roots@[k].path@)
                        && Some(out@[k].1) == kind_named(self.roots@[k].kind@),
            decreases self.roots.len() - i,
        {
            let root = &self.roots[i];
            let kind = match kind_of(root.kind.as_str()) {
                Some(k) => k,
                None => MediaKind::Movies,
            };
            out.push((trim_slashes(root.path.as_str()), kind));
            i += 1;
        }
        out
    }
}

proof fn lemma_first_stays(roots: Seq<RootConfig>, n: int)
    requires
        0 <= n <= roots.len(),
        first_unknown(roots.take(n)) is Some,
    ensures
        first_unknown(roots) == first_unknown(roots.take(n)),
    decreases roots.len() - n,
{
    if n < roots.len() {
        assert(roots.take(n + 1).drop_last() =~= roots.take(n));
        lemma_first_stays(roots, n + 1);
    } else {
        assert(roots.take(n) =~= roots);
    }
}

// -------------------------------------------------------------------- laws

/// The kinds that a root can have are movies, music and tv.
pub proof fn kinds_go_by_three_words(word: Seq<char>)
    ensures
        kind_named("movies"@) == Some(MediaKind::Movies),
        kind_named("music"@) == Some(MediaKind::Music),
        kind_named("tv"@) == Some(MediaKind::Tv),
        word != "movies"@ && word != "music"@ && word != "tv"@ ==> kind_named(word) is None,
{
    reveal_strlit("movies");
    reveal_strlit("music");
    reveal_strlit("tv");
    assert("movies"@.len() == 6 && "music"@.len() == 5 && "tv"@.len() == 2);
}

/// The root that makes a configuration unusable is the first whose kind is
/// none; without one, and with a root, it is usable.
pub proof fn the_first_bad_root_is_told(roots: Seq<RootConfig>)
    ensures
        match first_unknown(roots) {
            Some(i) => {
                &&& 0 <= i < roots.len()
                &&& kind_named(roots[i].kind@) is None
                &&& forall|j: int| 0 <= j < i ==> kind_named((#[trigger] roots[j]).kind@) is Some
            },
            None => forall|j: int|
                0 <= j < roots.len() ==> kind_named((#[trigger] roots[j]).kind@) is Some,
        },
    decreases roots.len(),
{
    if roots.len() > 0 {
        let head = roots.drop_last();
        the_first_bad_root_is_told(head);
        assert(forall|j: int| 0 <= j < head.len() ==> #[trigger] roots[j] == head[j]);
        match first_unknown(head) {
            Some(i) => {
                assert(head[i] == roots[i]);
            },
            None => {
                assert forall|j: int| 0 <= j < head.len() implies kind_named(
                    (#[trigger] roots[j]).kind@,
                ) is Some by {
                    assert(roots[j] == head[j]);
                    assert(kind_named(head[j].kind@) is Some);
                }
            },
        }
    }
}

/// Slashes at the end of a path go, however many; others stay.
pub proof fn slashes_at_the_end_go(s: Seq<char>)
    ensures
        unslashed(s.push('/')) == unslashed(s),
        s.len() > 0 && s.last() != '/' ==> unslashed(s) == s,
        unslashed(seq![]).len() == 0,
{
    assert(s.push('/').drop_last() =~= s);
}

} // verus!

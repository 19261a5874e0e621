//! Regular expressions, matched with the `regex` crate. Offsets are given as
//! texts: what stands before a match, the match, and what stands after it.
use vstd::prelude::*;
use crate::text;

verus! {

/// A year that names of files hold. Delimiters are checked apart, so that
/// adjacent year-like tokens ("Blade.Runner.2049.2017") each get considered —
/// an expression that consumes its delimiters would swallow the next token's
/// leading delimiter and miss it.
pub const YEAR: &'static str = r"(19|20)\d{2}";

/// A season and an episode. The repeated part consumes multi-episode markers
/// (S05E24E25) so they don't pollute the title; the file is catalogued as its
/// first episode, the usual convention.
pub const EPISODE: &'static str =
    r"(?i)(?:S(\d{1,2})[\. _-]*E(\d{1,3})(?:[\. _-]*E\d{1,3})*)|(?:(\d{1,2})x(\d{2,3}))";

/// A year at the end of a series' name, with or without brackets.
pub const SERIES_YEAR: &'static str = r"\s*\(?(19|20)\d{2}\)?\s*$";

/// A word that starts the release tags after an episode's title.
pub const RELEASE_JUNK: &'static str =
    r"(?i)^(2160p|1080p|720p|480p|4k|webrip|web-?dl|web|bluray|blu-ray|brrip|bdrip|hdtv|hdrip|dvdrip|hevc|x264|x265|h\.?264|h\.?265|av1|aac\d*|ac3|dd[p+]?[\d\.]*|dts(-?hd)?|atmos|repack|proper|internal|remastered|extended|uncut|unrated|amzn|nf|hulu|dsnp|hmax|10bit|8bit|hdr\d*|dv|sdr|multi|dubbed|subbed)\b";

/// A track number in front of a title.
pub const TRACK: &'static str = r"^(\d{1,3})[\. _-]+(.+)$";

/// The expressions above, each of which compiles.
pub open spec fn known(pattern: Seq<char>) -> bool {
    pattern == YEAR@ || pattern == EPISODE@ || pattern == SERIES_YEAR@ || pattern == RELEASE_JUNK@
        || pattern == TRACK@
}

/// One match.
#[derive(Debug)]
pub struct Match {
    pub before: String,
    pub matched: String,
    pub after: String,
}

impl View for Match {
    type V = (Seq<char>, Seq<char>, Seq<char>);

    open spec fn view(&self) -> (Seq<char>, Seq<char>, Seq<char>) {
        (self.before@, self.matched@, self.after@)
    }
}

pub open spec fn match_views(v: Seq<Match>) -> Seq<(Seq<char>, Seq<char>, Seq<char>)> {
    Seq::new(v.len(), |i: int| v[i]@)
}

/// The parts of a match make up the text.
pub open spec fn match_of(m: (Seq<char>, Seq<char>, Seq<char>), s: Seq<char>) -> bool {
    s == m.0 + m.1 + m.2
}

/// What `regex::Regex::find_iter` finds: the successive non-overlapping
/// matches of an expression in a text.
pub uninterp spec fn regex_find_iter(pattern: Seq<char>, s: Seq<char>) -> Seq<
    (Seq<char>, Seq<char>, Seq<char>),
>;

/// `regex::Regex::find_iter`. The matches are a function of the expression
/// and the text; each is a stretch of the text. What an expression matches
/// is left to the name.
#[verifier::external_body]
pub(crate) fn find_iter(pattern: &'static str, s: &str) -> (r: Vec<Match>)
    requires
        known(pattern@),
    ensures
        match_views(r@) == regex_find_iter(pattern@, s@),
        forall|i: int| 0 <= i < r@.len() ==> match_of((#[trigger] r@[i])@, s@),
{
    let re = regex::Regex::new(pattern).unwrap();
    re.find_iter(s)
        .map(|m| Match {
            before: s[..m.start()].to_string(),
            matched: m.as_str().to_string(),
            after: s[m.end()..].to_string(),
        })
        .collect()
}

/// The first match of an expression with its groups; group 0 is the whole
/// match.
#[derive(Debug)]
pub struct Groups {
    pub before: String,
    pub after: String,
    pub groups: Vec<Option<String>>,
}

pub struct GroupsView {
    pub before: Seq<char>,
    pub after: Seq<char>,
    pub groups: Seq<Option<Seq<char>>>,
}

impl View for Groups {
    type V = GroupsView;

    open spec fn view(&self) -> GroupsView {
        GroupsView {
            before: self.before@,
            after: self.after@,
            groups: Seq::new(self.groups@.len(), |i: int| text::opt_text(self.groups@[i])),
        }
    }
}

impl GroupsView {
    /// A group's text, where the group took part in the match.
    pub open spec fn group(self, i: int) -> Option<Seq<char>> {
        if 0 <= i < self.groups.len() {
            self.groups[i]
        } else {
            None
        }
    }
}

impl Groups {
    pub fn group(&self, i: usize) -> (r: Option<String>)
        ensures
            text::opt_text(r) == self@.group(i as int),
    {
        if i < self.groups.len() {
            match &self.groups[i] {
                Some(s) => Some(s.clone()),
                None => None,
            }
        } else {
            None
        }
    }
}

/// What `regex::Regex::captures` returns: the leftmost match of an
/// expression in a text, with its groups.
pub uninterp spec fn regex_captures(pattern: Seq<char>, s: Seq<char>) -> Option<GroupsView>;

/// `regex::Regex::captures`. The groups are a function of the expression and
/// the text. What an expression matches is left to the name.
#[verifier::external_body]
pub(crate) fn captures(pattern: &'static str, s: &str) -> (r: Option<Groups>)
    requires
        known(pattern@),
    ensures
        (match r {
            Some(g) => Some(g@),
            None => None,
        }) == regex_captures(pattern@, s@),
{
    let re = regex::Regex::new(pattern).unwrap();
    let caps = re.captures(s)?;
    let whole = caps.get(0)?;
    Some(Groups {
        before: s[..whole.start()].to_string(),
        after: s[whole.end()..].to_string(),
        groups: caps.iter().map(|g| g.map(|m| m.as_str().to_string())).collect(),
    })
}

/// What `regex::Regex::is_match` returns.
pub uninterp spec fn regex_is_match(pattern: Seq<char>, s: Seq<char>) -> bool;

/// `regex::Regex::is_match`. What an expression matches is left to the name.
#[verifier::external_body]
pub(crate) fn is_match(pattern: &'static str, s: &str) -> (r: bool)
    requires
        known(pattern@),
    ensures
        r == regex_is_match(pattern@, s@),
{
    regex::Regex::new(pattern).unwrap().is_match(s)
}

/// What `regex::Regex::replace` returns: the text with the leftmost match
/// replaced.
pub uninterp spec fn regex_replace(pattern: Seq<char>, s: Seq<char>, with: Seq<char>) -> Seq<char>;

/// `regex::Regex::replace`. What an expression matches is left to the name.
#[verifier::external_body]
pub(crate) fn replace(pattern: &'static str, s: &str, with: &str) -> (r: String)
    requires
        known(pattern@),
    ensures
        r@ == regex_replace(pattern@, s@, with@),
{
    regex::Regex::new(pattern).unwrap().replace(s, with).to_string()
}

} // verus!

//! IMDb non-commercial datasets: title.ratings.tsv.gz has the real IMDb
//! rating for every title, keyed by IMDb id. ~7 MB, refreshed daily by
//! IMDb; it is cached locally and stream-scanned for just the ids needed.
use vstd::prelude::*;
use crate::paths;
use crate::text;

verus! {

pub const DATASET_URL: &'static str = "https://datasets.imdbws.com/title.ratings.tsv.gz";

/// Where the dataset is cached: in the catalog's directory.
pub fn cache_path(catalog_dir: &str) -> (r: String)
    ensures
        r@ == paths::join_of(catalog_dir@, "title.ratings.tsv.gz"@),
{
    paths::join(catalog_dir, "title.ratings.tsv.gz")
}

/// Whether a cache of this age, in whole seconds, will do; none stands for a
/// cache that is missing or from the future.
pub fn cache_is_fresh(age: Option<u64>, max_age_days: u64) -> (r: bool)
    requires
        max_age_days * 86400 <= u64::MAX,
    ensures
        r == (age matches Some(a) && a < max_age_days * 86400),
{
    match age {
        Some(a) => a < max_age_days * 86400,
        None => false,
    }
}

/// The id and the rating on a line of the dataset: the first two of its
/// tab-separated fields.
pub open spec fn rating_fields(line: Seq<char>) -> Option<(Seq<char>, Seq<char>)> {
    let f = text::pieces(line, '\t');
    if f.len() >= 2 {
        Some((f[0], f[1]))
    } else {
        None
    }
}

/// The id and the rating, as written, on a line of the dataset, where the id
/// is one that is needed.
pub fn rating_line(line: &str, needed: &Vec<String>) -> (r: Option<(String, String)>)
    ensures
        text::opt_pair(r) == (match rating_fields(line@) {
            Some((id, rating)) => if text::texts(needed@).contains(id) {
                Some((id, rating))
            } else {
                None
            },
            None => None,
        }),
{
    let f = text::split(line, '\t');
    let ghost fs = text::texts(f@);
    assert(fs.len() == f@.len());
    if f.len() < 2 {
        return None;
    }
    assert(fs[0] == f@[0]@ && fs[1] == f@[1]@);
    if text::among(needed, f[0].as_str()) {
        Some((f[0].clone(), f[1].clone()))
    } else {
        None
    }
}

/// The ids of which a rating has been found.
#[derive(Debug)]
pub struct Found {
    ids: Vec<String>,
}

impl Found {
    pub closed spec fn known(&self) -> Set<Seq<char>> {
        text::texts(self.ids@).to_set()
    }

    /// Each id is held once, and is one of those needed.
    pub closed spec fn wf(&self, needed: Seq<Seq<char>>) -> bool {
        &&& text::texts(self.ids@).no_duplicates()
        &&& text::texts(self.ids@).to_set().subset_of(needed.to_set())
    }

    pub fn new(needed: &Vec<String>) -> (r: Found)
        ensures
            r.wf(text::texts(needed@)),
            r.known() == Set::<Seq<char>>::empty(),
    {
        let r = Found { ids: Vec::new() };
        assert(text::texts(r.ids@) =~= seq![]);
        assert(text::texts(r.ids@).to_set() =~= Set::empty());
        r
    }

    /// A needed id has a rating on the line that was read, `numeric` where it
    /// reads as a number; whether the rest of the dataset can be left unread:
    /// every needed id has its rating.
    pub fn rated(&mut self, id: &str, numeric: bool, needed: &Vec<String>) -> (r: bool)
        requires
            old(self).wf(text::texts(needed@)),
            text::texts(needed@).no_duplicates(),
            text::texts(needed@).contains(id@),
        ensures
            final(self).wf(text::texts(needed@)),
            final(self).known() == (if numeric {
                old(self).known().insert(id@)
            } else {
                old(self).known()
            }),
            r == (final(self).known() == text::texts(needed@).to_set()),
    {
        let ghost before = text::texts(self.ids@);
        let ghost ns = text::texts(needed@);
        if numeric && !text::among(&self.ids, id) {
            self.ids.push(id.to_owned());
            assert(text::texts(self.ids@) =~= before.push(id@));
        }
        let ghost after = text::texts(self.ids@);
        proof {
            assert(after.to_set() =~= (if numeric {
                before.to_set().insert(id@)
            } else {
                before.to_set()
            })) by {
                assert forall|x: Seq<char>| #![auto] after.to_set().contains(x) == (if numeric {
                    before.to_set().insert(id@)
                } else {
                    before.to_set()
                }).contains(x) by {
                    if after != before {
                        lemma_pushed(before, id@, x);
                    }
                }
            }
            after.unique_seq_to_set();
            ns.unique_seq_to_set();
            vstd::seq_lib::seq_to_set_is_finite(after);
            vstd::seq_lib::seq_to_set_is_finite(ns);
            if after.len() == ns.len() {
                vstd::set_lib::lemma_subset_equality(after.to_set(), ns.to_set());
            }
        }
        self.ids.len() == needed.len()
    }
}

proof fn lemma_pushed(s: Seq<Seq<char>>, a: Seq<char>, x: Seq<char>)
    ensures
        s.push(a).contains(x) == (s.contains(x) || x == a),
{
    if s.contains(x) {
        let i = choose|i: int| 0 <= i < s.len() && s[i] == x;
        assert(s.push(a)[i] == x);
    }
    if x == a {
        assert(s.push(a)[s.len() as int] == x);
    }
}

// -------------------------------------------------------------------- laws

/// A line of the dataset holds an id, a tab and a rating; what stands behind a
/// further tab does not count, and a line without a tab holds nothing.
pub proof fn ratings_stand_behind_their_id(line: Seq<char>)
    ensures
        ({
            let f = text::pieces(line, '\t');
            &&& f.len() == 1 ==> rating_fields(line) is None
            &&& f.len() > 1 ==> rating_fields(line) == Some((f[0], f[1]))
        }),
        !line.contains('\t') ==> rating_fields(line) is None,
{
    if !line.contains('\t') {
        text::lemma_index_of(line, '\t');
        let i = text::index_of(line, '\t');
        if i < line.len() {
            assert(line[i] == '\t');
        }
        assert(text::pieces(line, '\t').len() == 1);
    }
}

} // verus!

//! Series and seasons in the catalog.
use vstd::prelude::*;
use crate::db::models::{BrowseItem, Score};
use crate::db::queries::merge::MergeKey;
use crate::text;

verus! {

/// Series-level metadata ingested from a tvshow.nfo sidecar.
#[derive(Debug)]
pub struct SeriesMeta {
    pub plot: Option<String>,
    pub rating: Option<Score>,
    pub imdb_id: Option<String>,
    /// First air date (ISO), from tvshow.nfo <premiered>.
    pub premiered: Option<String>,
}

/// The year in a stored date's first four characters, if they are one: a
/// number from 1801 to 2199.
pub open spec fn year_of(date: Seq<char>) -> Option<int> {
    if date.len() < 4 {
        None
    } else {
        match text::integer_i64(date.take(4)) {
            Some(y) => if 1801 <= y < 2200 {
                Some(y)
            } else {
                None
            },
            None => None,
        }
    }
}

pub fn year_from(date: Option<&str>) -> (r: Option<i64>)
    ensures
        text::opt_int(r) == (match date {
            Some(d) => year_of(d@),
            None => None,
        }),
{
    match date {
        None => None,
        Some(d) => {
            let v = text::chars_of(d);
            if v.len() < 4 {
                return None;
            }
            let y = text::string_of(&v, 0, 4);
            assert(y@ =~= d@.take(4));
            match text::parse_i64(y.as_str()) {
                Some(y) => if 1801 <= y && y < 2200 {
                    Some(y)
                } else {
                    None
                },
                None => None,
            }
        },
    }
}

/// The key under which copies of one episode of a season merge: the episode
/// number; an unnumbered file never merges with another.
pub fn episode_key(item: &BrowseItem) -> (r: MergeKey)
    requires
        item.file_id != i64::MIN,
    ensures
        r@ == (Seq::<char>::empty(), item.season, Some(
            match item.episode {
                Some(n) => n,
                None => (-item.file_id) as i64,
            },
        )),
{
    MergeKey {
        name: String::new(),
        first: item.season,
        second: Some(
            match item.episode {
                Some(n) => n,
                None => -item.file_id,
            },
        ),
    }
}

/// The key under which copies of one movie merge: the title whatever its
/// case, and the year.
pub fn movie_key(item: &BrowseItem) -> (r: MergeKey)
    ensures
        r@ == (text::lowered(item.title@), item.year, None::<i64>),
{
    MergeKey { name: text::to_lowercase(item.title.as_str()), first: item.year, second: None }
}

} // verus!

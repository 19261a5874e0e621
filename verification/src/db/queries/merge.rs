//! Several copies of one work collapse into one item.
use vstd::prelude::*;
use vstd::multiset::Multiset;
use crate::db::models::{BrowseItem, Rendition};
use crate::text;

verus! {

/// What tells one work from another: a text and two numbers.
#[derive(Debug)]
pub struct MergeKey {
    pub name: String,
    pub first: Option<i64>,
    pub second: Option<i64>,
}

impl View for MergeKey {
    type V = (Seq<char>, Option<i64>, Option<i64>);

    open spec fn view(&self) -> (Seq<char>, Option<i64>, Option<i64>) {
        (self.name@, self.first, self.second)
    }
}

fn same_number(a: Option<i64>, b: Option<i64>) -> (r: bool)
    ensures
        r == (a == b),
{
    match (a, b) {
        (Some(x), Some(y)) => x == y,
        (None, None) => true,
        _ => false,
    }
}

fn same_key(a: &MergeKey, b: &MergeKey) -> (r: bool)
    ensures
        r == (a@ == b@),
{
    text::same(a.name.as_str(), b.name.as_str()) && same_number(a.first, b.first) && same_number(
        a.second,
        b.second,
    )
}

/// One work: its best file, the others, where its art is, and the position
/// of the item that it was first seen as.
#[verifier::ext_equal]
pub struct Work {
    pub primary: Rendition,
    pub extras: Seq<Rendition>,
    pub has_art: bool,
    pub art_file_id: Option<i64>,
    pub first: int,
}

/// A rendition put behind those that it does not beat.
pub open spec fn ranked_insert(s: Seq<Rendition>, r: Rendition) -> Seq<Rendition>
    decreases s.len(),
{
    if s.len() == 0 {
        seq![r]
    } else if r.beats(s.last()) {
        ranked_insert(s.drop_last(), r).push(s.last())
    } else {
        s.push(r)
    }
}

/// Renditions best-first; equal ones keep their order.
pub open spec fn ranked(s: Seq<Rendition>) -> Seq<Rendition>
    decreases s.len(),
{
    if s.len() == 0 {
        s
    } else {
        ranked_insert(ranked(s.drop_last()), s.last())
    }
}

/// A work that one more of its items joins: the better file becomes the
/// primary, and art comes from the first item that has any. Where the art is
/// on a primary that a better file takes the place of, it is found there.
pub open spec fn joined_by(w: Work, item: BrowseItem) -> Work {
    let incoming = item.primary();
    let art = !w.has_art && item.has_art;
    let (primary, other) = if incoming.beats(w.primary) {
        (incoming, w.primary)
    } else {
        (w.primary, incoming)
    };
    Work {
        primary,
        extras: ranked(w.extras.push(other)),
        has_art: w.has_art || item.has_art,
        art_file_id: if art {
            Some(
                match item.art_file_id {
                    Some(id) => id,
                    None => item.file_id,
                },
            )
        } else if w.has_art && w.art_file_id is None && incoming.beats(w.primary) {
            Some(w.primary.file_id)
        } else {
            w.art_file_id
        },
        first: w.first,
    }
}

pub open spec fn work_of(item: BrowseItem, at: int) -> Work {
    Work {
        primary: item.primary(),
        extras: item.renditions@,
        has_art: item.has_art,
        art_file_id: item.art_file_id,
        first: at,
    }
}

/// The index of the first work with the key, or the number of works.
pub open spec fn slot<K>(works: Seq<Work>, keys: Seq<K>, key: K) -> int
    decreases works.len(),
{
    if works.len() == 0 || keys[works[0].first] == key {
        0
    } else {
        1 + slot(works.drop_first(), keys, key)
    }
}

/// The works among the first `n` items, in the order in which they were
/// first seen.
pub open spec fn works<K>(items: Seq<BrowseItem>, keys: Seq<K>, n: int) -> Seq<Work>
    decreases n,
{
    if n <= 0 {
        seq![]
    } else {
        let before = works(items, keys, n - 1);
        let k = slot(before, keys, keys[n - 1]);
        if k < before.len() {
            before.update(k, joined_by(before[k], items[n - 1]))
        } else {
            before.push(work_of(items[n - 1], n - 1))
        }
    }
}

/// An item that shows a work.
pub open spec fn shows(item: BrowseItem, w: Work, items: Seq<BrowseItem>) -> bool {
    &&& item.primary() == w.primary
    &&& item.renditions@ == w.extras
    &&& item.has_art == w.has_art
    &&& item.art_file_id == w.art_file_id
    &&& item.described_as(items[w.first])
}

pub open spec fn measurable_item(item: BrowseItem) -> bool {
    &&& item.primary().measurable()
    &&& forall|i: int| 0 <= i < item.renditions@.len() ==> (#[trigger] item.renditions@[i]).measurable()
}

proof fn lemma_slot<K>(w: Seq<Work>, keys: Seq<K>, key: K)
    ensures
        0 <= slot(w, keys, key) <= w.len(),
        slot(w, keys, key) < w.len() ==> keys[w[slot(w, keys, key)].first] == key,
        forall|j: int| 0 <= j < slot(w, keys, key) ==> keys[(#[trigger] w[j]).first] != key,
    decreases w.len(),
{
    if w.len() > 0 && keys[w[0].first] != key {
        let rest = w.drop_first();
        lemma_slot(rest, keys, key);
        assert forall|j: int| 0 <= j < slot(w, keys, key) implies keys[(#[trigger] w[j]).first]
            != key by {
            if j > 0 {
                assert(w[j] == rest[j - 1]);
            }
        }
    }
}

proof fn lemma_slot_is<K>(w: Seq<Work>, keys: Seq<K>, key: K, k: int)
    requires
        0 <= k <= w.len(),
        k < w.len() ==> keys[w[k].first] == key,
        forall|j: int| 0 <= j < k ==> keys[(#[trigger] w[j]).first] != key,
    ensures
        slot(w, keys, key) == k,
{
    lemma_slot(w, keys, key);
    let s = slot(w, keys, key);
    if s < k {
        assert(keys[w[s].first] != key);
    } else if k < s {
        assert(keys[w[k].first] != key);
    }
}

/// Put `r` into a ranked list.
fn rank_in(v: &mut Vec<Rendition>, r: Rendition)
    requires
        r.measurable(),
        forall|i: int| 0 <= i < old(v)@.len() ==> (#[trigger] old(v)@[i]).measurable(),
    ensures
        final(v)@ == ranked_insert(old(v)@, r),
        forall|i: int| 0 <= i < final(v)@.len() ==> (#[trigger] final(v)@[i]).measurable(),
{
    let ghost s = v@;
    let mut at: usize = v.len();
    assert(s.take(at as int) =~= s);
    assert(s.skip(at as int) =~= seq![]);
    assert(ranked_insert(s, r) =~= ranked_insert(s.take(at as int), r) + s.skip(at as int));
    while at > 0 && r.better_than(&v[at - 1])
        invariant
            at <= v.len(),
            v@ == s,
            r.measurable(),
            forall|i: int| 0 <= i < s.len() ==> (#[trigger] s[i]).measurable(),
            ranked_insert(s, r) == ranked_insert(s.take(at as int), r) + s.skip(at as int),
        decreases at,
    {
        proof {
            let t = s.take(at as int);
            assert(t.drop_last() =~= s.take(at - 1));
            assert(ranked_insert(t.drop_last(), r).push(t.last()) + s.skip(at as int)
                =~= ranked_insert(s.take(at - 1), r) + s.skip(at - 1));
        }
        at -= 1;
    }
    proof {
        let t = s.take(at as int);
        assert(ranked_insert(t, r) =~= t.push(r));
        assert(s.insert(at as int, r) =~= t.push(r) + s.skip(at as int));
    }
    v.insert(at, r);
    assert forall|i: int| 0 <= i < v@.len() implies (#[trigger] v@[i]).measurable() by {
        if i < at {
            assert(v@[i] == s[i]);
        } else if i > at {
            assert(v@[i] == s[i - 1]);
        }
    }
}

/// Sort best-first; equal renditions keep their order.
fn rank(v: Vec<Rendition>) -> (r: Vec<Rendition>)
    requires
        forall|i: int| 0 <= i < v@.len() ==> (#[trigger] v@[i]).measurable(),
    ensures
        r@ == ranked(v@),
        forall|i: int| 0 <= i < r@.len() ==> (#[trigger] r@[i]).measurable(),
{
    let ghost s = v@;
    let mut out: Vec<Rendition> = Vec::new();
    let mut rest = v;
    let mut taken: Vec<Rendition> = Vec::new();
    // Popping gives the last first: collect, then insert in order.
    while rest.len() > 0
        invariant
            rest@.len() <= s.len(),
            rest@ == s.take(rest@.len() as int),
            taken@.len() == s.len() - rest@.len(),
            forall|i: int| 0 <= i < taken@.len() ==> #[trigger] taken@[i] == s[s.len() - 1 - i],
        decreases rest.len(),
    {
        let ghost n = rest@.len();
        match rest.pop() {
            Some(r) => {
                taken.push(r);
            },
            None => {},
        }
        assert(rest@ =~= s.take(n - 1));
    }
    let ghost all = taken@;
    while taken.len() > 0
        invariant
            taken@.len() <= all.len(),
            all.len() == s.len(),
            taken@ == all.take(taken@.len() as int),
            forall|i: int| 0 <= i < all.len() ==> #[trigger] all[i] == s[s.len() - 1 - i],
            forall|i: int| 0 <= i < s.len() ==> (#[trigger] s[i]).measurable(),
            forall|i: int| 0 <= i < out@.len() ==> (#[trigger] out@[i]).measurable(),
            out@ == ranked(s.take(s.len() - taken@.len())),
        decreases taken.len(),
    {
        let ghost m = taken@.len() as int;
        match taken.pop() {
            Some(r) => {
                proof {
                    let k = s.len() - m;
                    assert(r == all[m - 1]);
                    assert(r == s[k]);
                    assert(s.take(k + 1).drop_last() =~= s.take(k));
                    assert(s.take(k + 1).last() == r);
                }
                rank_in(&mut out, r);
            },
            None => {},
        }
        assert(taken@ =~= all.take(m - 1));
    }
    assert(s.take(s.len() as int) =~= s);
    out
}

/// Add one of its items to a work.
fn absorb(kept: &mut BrowseItem, item: BrowseItem, w: Ghost<Work>, items: Ghost<Seq<BrowseItem>>)
    requires
        shows(*old(kept), w@, items@),
        measurable_item(*old(kept)),
        item.primary().measurable(),
    ensures
        shows(*final(kept), joined_by(w@, item), items@),
        measurable_item(*final(kept)),
{
    let incoming = item.primary_rendition();
    let had_art = kept.has_art;
    if !kept.has_art && item.has_art {
        kept.has_art = true;
        kept.art_file_id = Some(
            match item.art_file_id {
                Some(id) => id,
                None => item.file_id,
            },
        );
    }
    let old_primary = kept.primary_rendition();
    let mut list: Vec<Rendition> = Vec::new();
    std::mem::swap(&mut list, &mut kept.renditions);
    if incoming.better_than(&old_primary) {
        if had_art && kept.art_file_id.is_none() {
            kept.art_file_id = Some(old_primary.file_id);
        }
        kept.set_primary(incoming);
        list.push(old_primary);
    } else {
        list.push(incoming);
    }
    kept.renditions = rank(list);
}

/// Collapse items sharing a key ("the same movie in several qualities")
/// into one item whose primary is the best rendition and whose extras are
/// kept best-first. First-seen list order is preserved. `keys` holds the key
/// of each item.
pub fn merge_renditions(items: Vec<BrowseItem>, keys: &Vec<MergeKey>) -> (r: Vec<BrowseItem>)
    requires
        keys@.len() == items@.len(),
        forall|i: int| 0 <= i < items@.len() ==> measurable_item(#[trigger] items@[i]),
    ensures
        ({
            let w = works(items@, key_views(keys@), items@.len() as int);
            &&& r@.len() == w.len()
            &&& forall|k: int| 0 <= k < r@.len() ==> shows(#[trigger] r@[k], w[k], items@)
        }),
{
    let ghost all = items@;
    let ghost ks = key_views(keys@);
    let mut rest = items;
    let mut queue: Vec<BrowseItem> = Vec::new();
    while rest.len() > 0
        invariant
            rest@.len() <= all.len(),
            rest@ == all.take(rest@.len() as int),
            queue@.len() == all.len() - rest@.len(),
            forall|i: int| 0 <= i < queue@.len() ==> #[trigger] queue@[i] == all[all.len() - 1 - i],
        decreases rest.len(),
    {
        let ghost n = rest@.len();
        match rest.pop() {
            Some(item) => {
                queue.push(item);
            },
            None => {},
        }
        assert(rest@ =~= all.take(n - 1));
    }
    let ghost whole = queue@;
    let mut out: Vec<BrowseItem> = Vec::new();
    let mut firsts: Vec<usize> = Vec::new();
    let mut n: usize = 0;
    while queue.len() > 0
        invariant
            whole.len() == all.len(),
            n + queue@.len() == keys.len(),
            keys@.len() == all.len(),
            ks == key_views(keys@),
            queue@ == whole.take(queue@.len() as int),
            forall|i: int| 0 <= i < whole.len() ==> #[trigger] whole[i] == all[all.len() - 1 - i],
            forall|i: int| 0 <= i < all.len() ==> measurable_item(#[trigger] all[i]),
            out@.len() == firsts@.len(),
            out@.len() == works(all, ks, n as int).len(),
            forall|k: int|
                0 <= k < out@.len() ==> shows(#[trigger] out@[k], works(all, ks, n as int)[k], all),
            forall|k: int| 0 <= k < out@.len() ==> measurable_item(#[trigger] out@[k]),
            forall|k: int|
                0 <= k < firsts@.len() ==> (#[trigger] firsts@[k]) < n && firsts@[k] == works(
                    all,
                    ks,
                    n as int,
                )[k].first,
        decreases queue.len(),
    {
        let ghost before = works(all, ks, n as int);
        let ghost m = queue@.len() as int;
        match queue.pop() {
            None => {},
            Some(item) => {
                assert(item == whole[m - 1]);
                assert(item == all[n as int]);
                assert(measurable_item(all[n as int]));
                let mut k: usize = 0;
                while k < out.len() && !same_key(&keys[firsts[k]], &keys[n])
                    invariant
                        k <= out.len(),
                        n < keys@.len(),
                        ks == key_views(keys@),
                        out@.len() == firsts@.len(),
                        before.len() == out@.len(),
                        forall|j: int|
                            0 <= j < firsts@.len() ==> (#[trigger] firsts@[j]) < n && firsts@[j]
                                == before[j].first,
                        forall|j: int|
                            0 <= j < k ==> ks[(#[trigger] before[j]).first] != ks[n as int],
                    decreases out.len() - k,
                {
                    proof {
                        assert(firsts@[k as int] < n);
                        assert(ks[before[k as int].first] == keys@[firsts@[k as int] as int]@);
                    }
                    k += 1;
                }
                proof {
                    if k < out@.len() {
                        assert(firsts@[k as int] < n);
                        assert(ks[before[k as int].first] == keys@[firsts@[k as int] as int]@);
                    }
                    lemma_slot_is(before, ks, ks[n as int], k as int);
                }
                let ghost prev = out@;
                if k < out.len() {
                    let mut kept = out.remove(k);
                    assert(kept == prev[k as int]);
                    assert(shows(prev[k as int], before[k as int], all));
                    assert(measurable_item(prev[k as int]));
                    absorb(&mut kept, item, Ghost(before[k as int]), Ghost(all));
                    out.insert(k, kept);
                    proof {
                        let now = works(all, ks, n + 1);
                        assert(out@ =~= prev.update(k as int, kept));
                        assert forall|j: int| 0 <= j < out@.len() implies shows(
                            #[trigger] out@[j],
                            now[j],
                            all,
                        ) && measurable_item(out@[j]) by {
                            if j != k {
                                assert(out@[j] == prev[j]);
                                assert(shows(prev[j], before[j], all));
                                assert(measurable_item(prev[j]));
                            }
                        }
                        assert forall|j: int| 0 <= j < firsts@.len() implies (
                        #[trigger] firsts@[j]) < n + 1 && firsts@[j] == now[j].first by {
                            assert(firsts@[j] < n);
                        }
                    }
                } else {
                    let ghost fresh = item;
                    out.push(item);
                    firsts.push(n);
                    proof {
                        let now = works(all, ks, n + 1);
                        assert forall|j: int| 0 <= j < out@.len() implies shows(
                            #[trigger] out@[j],
                            now[j],
                            all,
                        ) && measurable_item(out@[j]) by {
                            if j < prev.len() {
                                assert(out@[j] == prev[j]);
                                assert(shows(prev[j], before[j], all));
                                assert(measurable_item(prev[j]));
                            }
                        }
                        assert forall|j: int| 0 <= j < firsts@.len() implies (
                        #[trigger] firsts@[j]) < n + 1 && firsts@[j] == now[j].first by {}
                    }
                }
                n += 1;
            },
        }
        assert(queue@ =~= whole.take(m - 1));
    }
    out
}

pub open spec fn key_views(keys: Seq<MergeKey>) -> Seq<(Seq<char>, Option<i64>, Option<i64>)> {
    Seq::new(keys.len(), |i: int| keys[i]@)
}

// -------------------------------------------------------------------- laws

/// Best first: none ranks above an earlier one.
pub open spec fn best_first(s: Seq<Rendition>) -> bool {
    forall|i: int, j: int| 0 <= i < j < s.len() ==> !(#[trigger] s[j]).beats(#[trigger] s[i])
}

proof fn lemma_insert(s: Seq<Rendition>, r: Rendition)
    requires
        best_first(s),
    ensures
        best_first(ranked_insert(s, r)),
        ranked_insert(s, r).len() == s.len() + 1,
        forall|i: int|
            0 <= i < ranked_insert(s, r).len() ==> (#[trigger] ranked_insert(s, r)[i]) == r
                || s.contains(ranked_insert(s, r)[i]),
        ranked_insert(s, r).to_multiset() =~= s.to_multiset().insert(r),
    decreases s.len(),
{
    broadcast use vstd::seq_lib::group_to_multiset_ensures;

    if s.len() > 0 && r.beats(s.last()) {
        let head = s.drop_last();
        assert(best_first(head)) by {
            assert forall|i: int, j: int| 0 <= i < j < head.len() implies !(
            #[trigger] head[j]).beats(#[trigger] head[i]) by {
                assert(!s[j].beats(s[i]));
            }
        }
        lemma_insert(head, r);
        let out = ranked_insert(s, r);
        let t = ranked_insert(head, r);
        assert forall|i: int| 0 <= i < out.len() implies (#[trigger] out[i]) == r || s.contains(
            out[i],
        ) by {
            if i < t.len() {
                if t[i] != r {
                    assert(head.contains(t[i]));
                    let k = choose|k: int| 0 <= k < head.len() && head[k] == t[i];
                    assert(s[k] == out[i]);
                }
            } else {
                assert(s[s.len() - 1] == out[i]);
            }
        }
        assert forall|i: int, j: int| 0 <= i < j < out.len() implies !(#[trigger] out[j]).beats(
            #[trigger] out[i],
        ) by {
            if j < t.len() {
                assert(!t[j].beats(t[i]));
            } else {
                assert(out[j] == s.last());
                if t[i] != r {
                    assert(head.contains(t[i]));
                    let k = choose|k: int| 0 <= k < head.len() && head[k] == t[i];
                    assert(!s[s.len() - 1].beats(s[k]));
                }
            }
        }
        assert(s =~= head.push(s.last()));
    } else {
        let out = s.push(r);
        assert forall|i: int| 0 <= i < out.len() implies (#[trigger] out[i]) == r || s.contains(
            out[i],
        ) by {
            if i < s.len() {
                assert(s[i] == out[i]);
            }
        }
        assert forall|i: int, j: int| 0 <= i < j < out.len() implies !(#[trigger] out[j]).beats(
            #[trigger] out[i],
        ) by {
            if j < s.len() {
                assert(!s[j].beats(s[i]));
            } else if i < s.len() - 1 {
                assert(!s[s.len() - 1].beats(s[i]));
            }
        }
        if s.len() == 0 {
            assert(ranked_insert(s, r) =~= s.push(r));
        }
    }
}

/// Ranking is a sort: the same renditions, best first.
pub proof fn ranking_sorts(s: Seq<Rendition>)
    ensures
        best_first(ranked(s)),
        ranked(s).to_multiset() =~= s.to_multiset(),
        ranked(s).len() == s.len(),
        forall|i: int| 0 <= i < ranked(s).len() ==> s.contains(#[trigger] ranked(s)[i]),
    decreases s.len(),
{
    broadcast use vstd::seq_lib::group_to_multiset_ensures;

    if s.len() > 0 {
        let head = s.drop_last();
        ranking_sorts(head);
        lemma_insert(ranked(head), s.last());
        assert(s =~= head.push(s.last()));
        assert forall|i: int| 0 <= i < ranked(s).len() implies s.contains(
            #[trigger] ranked(s)[i],
        ) by {
            if ranked(s)[i] != s.last() {
                let r = ranked(head);
                assert(r.contains(ranked(s)[i]));
                let k = choose|k: int| 0 <= k < r.len() && r[k] == ranked(s)[i];
                assert(head.contains(r[k]));
                let m = choose|m: int| 0 <= m < head.len() && head[m] == r[k];
                assert(s[m] == ranked(s)[i]);
            } else {
                assert(s[s.len() - 1] == ranked(s)[i]);
            }
        }
    }
}

/// No other copy of a work ranks above its primary, and the others stand
/// best first.
pub open spec fn well_ranked(w: Work) -> bool {
    &&& best_first(w.extras)
    &&& forall|i: int| 0 <= i < w.extras.len() ==> !(#[trigger] w.extras[i]).beats(w.primary)
}

/// How many copies the works have among them.
pub open spec fn copies(w: Seq<Work>) -> int
    decreases w.len(),
{
    if w.len() == 0 {
        0
    } else {
        copies(w.drop_last()) + 1 + w.last().extras.len()
    }
}

proof fn lemma_copies_update(w: Seq<Work>, k: int, x: Work)
    requires
        0 <= k < w.len(),
        x.extras.len() == w[k].extras.len() + 1,
    ensures
        copies(w.update(k, x)) == copies(w) + 1,
    decreases w.len(),
{
    let u = w.update(k, x);
    if k == w.len() - 1 {
        assert(u.drop_last() =~= w.drop_last());
    } else {
        assert(u.drop_last() =~= w.drop_last().update(k, x));
        lemma_copies_update(w.drop_last(), k, x);
    }
}

/// Merging single-file items: each work's primary is its best copy and the
/// others follow best first; no item is lost or doubled; no two works share
/// a key; the works stand in the order in which they were first seen.
pub proof fn merging_keeps_every_copy<K>(items: Seq<BrowseItem>, keys: Seq<K>, n: int)
    requires
        0 <= n <= items.len(),
        keys.len() == items.len(),
        forall|i: int| 0 <= i < items.len() ==> (#[trigger] items[i]).renditions@.len() == 0,
    ensures
        forall|k: int|
            0 <= k < works(items, keys, n).len() ==> well_ranked(#[trigger] works(items, keys, n)[k]),
        copies(works(items, keys, n)) == n,
        forall|k: int|
            0 <= k < works(items, keys, n).len() ==> 0 <= (#[trigger] works(
                items,
                keys,
                n,
            )[k]).first < n,
        forall|i: int, j: int|
            0 <= i < j < works(items, keys, n).len() ==> (#[trigger] works(items, keys, n)[i]).first
                < (#[trigger] works(items, keys, n)[j]).first && keys[works(
                items,
                keys,
                n,
            )[i].first] != keys[works(items, keys, n)[j].first],
    decreases n,
{
    if n > 0 {
        merging_keeps_every_copy(items, keys, n - 1);
        let before = works(items, keys, n - 1);
        let now = works(items, keys, n);
        let item = items[n - 1];
        let k = slot(before, keys, keys[n - 1]);
        lemma_slot(before, keys, keys[n - 1]);
        assert(items[n - 1].renditions@.len() == 0);
        if k < before.len() {
            let w = before[k];
            let x = joined_by(w, item);
            assert(well_ranked(before[k]));
            let other = if item.primary().beats(w.primary) {
                w.primary
            } else {
                item.primary()
            };
            let list = w.extras.push(other);
            ranking_sorts(list);
            assert(well_ranked(x)) by {
                assert forall|i: int| 0 <= i < x.extras.len() implies !(
                #[trigger] x.extras[i]).beats(x.primary) by {
                    assert(list.contains(ranked(list)[i]));
                    let m = choose|m: int| 0 <= m < list.len() && list[m] == x.extras[i];
                    if m < w.extras.len() {
                        assert(!w.extras[m].beats(w.primary));
                    }
                }
            }
            lemma_copies_update(before, k, x);
            assert forall|j: int| 0 <= j < now.len() implies well_ranked(#[trigger] now[j]) && 0
                <= now[j].first < n by {
                if j != k {
                    assert(well_ranked(before[j]));
                }
                assert(before[j].first < n - 1);
            }
            assert forall|i: int, j: int| 0 <= i < j < now.len() implies (
            #[trigger] now[i]).first < (#[trigger] now[j]).first && keys[now[i].first]
                != keys[now[j].first] by {
                assert(before[i].first < before[j].first);
            }
        } else {
            let x = work_of(item, n - 1);
            assert(now.drop_last() =~= before);
            assert forall|j: int| 0 <= j < now.len() implies well_ranked(#[trigger] now[j]) && 0
                <= now[j].first < n by {
                if j < before.len() {
                    assert(now[j] == before[j]);
                    assert(well_ranked(before[j]));
                    assert(before[j].first < n - 1);
                }
            }
            assert forall|i: int, j: int| 0 <= i < j < now.len() implies (
            #[trigger] now[i]).first < (#[trigger] now[j]).first && keys[now[i].first]
                != keys[now[j].first] by {
                assert(now[i] == before[i]);
                if j < before.len() {
                    assert(before[i].first < before[j].first);
                } else {
                    assert(before[i].first < n - 1);
                    assert(keys[before[i].first] != keys[n - 1]);
                }
            }
        }
    }
}

/// The copies among the first `n` items with a key.
pub open spec fn copies_of<K>(items: Seq<BrowseItem>, keys: Seq<K>, key: K, n: int) -> Multiset<Rendition>
    decreases n,
{
    if n <= 0 {
        Multiset::empty()
    } else if keys[n - 1] == key {
        copies_of(items, keys, key, n - 1).insert(items[n - 1].primary())
    } else {
        copies_of(items, keys, key, n - 1)
    }
}

/// A work's copies are those of its key, each as often as it was listed: no
/// other work's copy is among them, and none is missing.
pub proof fn works_hold_their_copies<K>(items: Seq<BrowseItem>, keys: Seq<K>, n: int, k: int)
    requires
        0 <= n <= items.len(),
        keys.len() == items.len(),
        forall|i: int| 0 <= i < items.len() ==> (#[trigger] items[i]).renditions@.len() == 0,
        0 <= k < works(items, keys, n).len(),
    ensures
        works(items, keys, n)[k].extras.to_multiset().insert(works(items, keys, n)[k].primary)
            == copies_of(items, keys, keys[works(items, keys, n)[k].first], n),
    decreases n,
{
    broadcast use vstd::seq_lib::group_to_multiset_ensures;

    merging_keeps_every_copy(items, keys, n);
    if n > 0 {
        merging_keeps_every_copy(items, keys, n - 1);
        let before = works(items, keys, n - 1);
        let now = works(items, keys, n);
        let item = items[n - 1];
        assert(item.renditions@.len() == 0);
        let s = slot(before, keys, keys[n - 1]);
        lemma_slot(before, keys, keys[n - 1]);
        if s < before.len() {
            works_hold_their_copies(items, keys, n - 1, k);
            if k == s {
                let w = before[k];
                let other = if item.primary().beats(w.primary) {
                    w.primary
                } else {
                    item.primary()
                };
                ranking_sorts(w.extras.push(other));
                assert(now[k].extras.to_multiset().insert(now[k].primary)
                    =~= w.extras.to_multiset().insert(w.primary).insert(item.primary()));
            } else {
                if k < s {
                    assert(keys[before[k].first] != keys[before[s].first]);
                } else {
                    assert(keys[before[s].first] != keys[before[k].first]);
                }
            }
        } else if k < before.len() {
            works_hold_their_copies(items, keys, n - 1, k);
            assert(now[k] == before[k]);
            assert(keys[before[k].first] != keys[n - 1]);
        } else {
            lemma_no_copies(items, keys, n - 1, keys[n - 1]);
            assert(item.renditions@ =~= seq![]);
            assert(now[k].extras.to_multiset().insert(now[k].primary)
                =~= Multiset::empty().insert(item.primary()));
        }
    }
}

/// Where no work has a key, no item has it.
proof fn lemma_no_copies<K>(items: Seq<BrowseItem>, keys: Seq<K>, n: int, key: K)
    requires
        0 <= n <= items.len(),
        keys.len() == items.len(),
        slot(works(items, keys, n), keys, key) == works(items, keys, n).len(),
    ensures
        copies_of(items, keys, key, n) == Multiset::<Rendition>::empty(),
    decreases n,
{
    if n > 0 {
        let before = works(items, keys, n - 1);
        let now = works(items, keys, n);
        let s = slot(before, keys, keys[n - 1]);
        lemma_slot(before, keys, keys[n - 1]);
        lemma_slot(now, keys, key);
        if s < before.len() {
            assert(now[s].first == before[s].first);
        } else {
            assert(now[before.len() as int].first == n - 1);
        }
        assert forall|j: int| 0 <= j < before.len() implies keys[(#[trigger] before[j]).first]
            != key by {
            assert(now[j].first == before[j].first);
        }
        lemma_slot_is(before, keys, key, before.len() as int);
        lemma_no_copies(items, keys, n - 1, key);
    }
}

/// Whether an item with a key has art of its own under this file.
pub open spec fn art_source<K>(items: Seq<BrowseItem>, keys: Seq<K>, key: K, n: int, file_id: i64) -> bool {
    exists|i: int|
        0 <= i < n && keys[i] == key && (#[trigger] items[i]).has_art && items[i].file_id == file_id
}

/// The art that a work shows is one of its files': the link goes to the file
/// that was listed with art, not to another copy that became the primary.
pub proof fn art_is_linked_where_it_lives<K>(items: Seq<BrowseItem>, keys: Seq<K>, n: int, k: int)
    requires
        0 <= n <= items.len(),
        keys.len() == items.len(),
        forall|i: int|
            0 <= i < items.len() ==> (#[trigger] items[i]).renditions@.len() == 0
                && items[i].art_file_id is None,
        0 <= k < works(items, keys, n).len(),
        works(items, keys, n)[k].has_art,
    ensures
        ({
            let w = works(items, keys, n)[k];
            art_source(
                items,
                keys,
                keys[w.first],
                n,
                match w.art_file_id {
                    Some(id) => id,
                    None => w.primary.file_id,
                },
            )
        }),
    decreases n,
{
    if n > 0 {
        let before = works(items, keys, n - 1);
        let item = items[n - 1];
        let s = slot(before, keys, keys[n - 1]);
        lemma_slot(before, keys, keys[n - 1]);
        assert(item.art_file_id is None);
        let w = works(items, keys, n)[k];
        let linked = match w.art_file_id {
            Some(id) => id,
            None => w.primary.file_id,
        };
        if k < before.len() && before[k].has_art {
            art_is_linked_where_it_lives(items, keys, n - 1, k);
            let i = choose|i: int|
                0 <= i < n - 1 && keys[i] == keys[w.first] && (#[trigger] items[i]).has_art
                    && items[i].file_id == linked;
            assert(items[i].has_art);
        } else {
            assert(items[n - 1].has_art && items[n - 1].file_id == linked);
        }
    }
}

} // verus!

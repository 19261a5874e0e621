//! A list of values by key, no key twice: what a state file holds.
use vstd::prelude::*;
use crate::text;

verus! {

pub open spec fn keys_of<V: View>(entries: Seq<(String, V)>) -> Seq<Seq<char>> {
    Seq::new(entries.len(), |i: int| entries[i].0@)
}

pub open spec fn distinct(keys: Seq<Seq<char>>) -> bool {
    forall|i: int, j: int| 0 <= i < j < keys.len() ==> keys[i] != keys[j]
}

/// The entries as a map; of equal keys the later one counts.
pub open spec fn mapped<V: View>(entries: Seq<(String, V)>) -> Map<Seq<char>, V::V>
    decreases entries.len(),
{
    if entries.len() == 0 {
        Map::empty()
    } else {
        mapped(entries.drop_last()).insert(entries.last().0@, entries.last().1@)
    }
}

pub proof fn lemma_mapped<V: View>(entries: Seq<(String, V)>)
    requires
        distinct(keys_of(entries)),
    ensures
        forall|i: int|
            0 <= i < entries.len() ==> mapped(entries).dom().contains(#[trigger] entries[i].0@)
                && mapped(entries)[entries[i].0@] == entries[i].1@,
        forall|k: Seq<char>|
            #[trigger] mapped(entries).dom().contains(k) ==> exists|i: int|
                0 <= i < entries.len() && #[trigger] entries[i].0@ == k,
    decreases entries.len(),
{
    if entries.len() > 0 {
        let head = entries.drop_last();
        let ks = keys_of(entries);
        assert(distinct(keys_of(head))) by {
            assert forall|i: int, j: int| 0 <= i < j < head.len() implies keys_of(head)[i]
                != keys_of(head)[j] by {
                assert(ks[i] != ks[j]);
            }
        }
        lemma_mapped(head);
        assert forall|i: int| 0 <= i < entries.len() implies mapped(entries).dom().contains(
            #[trigger] entries[i].0@,
        ) && mapped(entries)[entries[i].0@] == entries[i].1@ by {
            if i < entries.len() - 1 {
                assert(head[i] == entries[i]);
                assert(ks[i] != ks[entries.len() - 1]);
            }
        }
        assert forall|k: Seq<char>| #[trigger] mapped(entries).dom().contains(k) implies exists|
            i: int,
        |
            0 <= i < entries.len() && #[trigger] entries[i].0@ == k by {
            if k == entries.last().0@ {
                assert(entries[entries.len() - 1].0@ == k);
            } else {
                assert(mapped(head).dom().contains(k));
                let i = choose|i: int| 0 <= i < head.len() && #[trigger] head[i].0@ == k;
                assert(entries[i].0@ == k);
            }
        }
    }
}

pub proof fn lemma_size<V: View>(entries: Seq<(String, V)>)
    requires
        distinct(keys_of(entries)),
    ensures
        mapped(entries).dom().finite(),
        mapped(entries).dom().len() == entries.len(),
    decreases entries.len(),
{
    if entries.len() > 0 {
        let head = entries.drop_last();
        let ks = keys_of(entries);
        assert(distinct(keys_of(head))) by {
            assert forall|i: int, j: int| 0 <= i < j < head.len() implies keys_of(head)[i]
                != keys_of(head)[j] by {
                assert(ks[i] != ks[j]);
            }
        }
        lemma_size(head);
        lemma_mapped(head);
        let last = entries.last().0@;
        assert(!mapped(head).dom().contains(last)) by {
            if mapped(head).dom().contains(last) {
                let i = choose|i: int| 0 <= i < head.len() && #[trigger] head[i].0@ == last;
                assert(ks[i] != ks[entries.len() - 1]);
            }
        }
        assert(mapped(entries).dom() =~= mapped(head).dom().insert(last));
    }
}

pub fn find<V: View>(entries: &Vec<(String, V)>, key: &str) -> (r: Option<usize>)
    requires
        distinct(keys_of(entries@)),
    ensures
        match r {
            Some(i) => i < entries@.len() && entries@[i as int].0@ == key@,
            None => !mapped(entries@).dom().contains(key@),
        },
{
    let mut i: usize = 0;
    while i < entries.len()
        invariant
            i <= entries.len(),
            forall|k: int| 0 <= k < i ==> (#[trigger] entries@[k]).0@ != key@,
        decreases entries.len() - i,
    {
        if text::same(entries[i].0.as_str(), key) {
            return Some(i);
        }
        i += 1;
    }
    proof {
        lemma_mapped(entries@);
    }
    None
}

pub proof fn lemma_update<V: View>(entries: Seq<(String, V)>, i: int, new: (String, V))
    requires
        0 <= i < entries.len(),
        distinct(keys_of(entries)),
        entries[i].0@ == new.0@,
    ensures
        distinct(keys_of(entries.update(i, new))),
        mapped(entries.update(i, new)) == mapped(entries).insert(new.0@, new.1@),
    decreases entries.len(),
{
    let after = entries.update(i, new);
    let ks = keys_of(entries);
    assert(keys_of(after) =~= ks);
    let head = entries.drop_last();
    if i == entries.len() - 1 {
        assert(after.drop_last() =~= head);
        assert(mapped(after) =~= mapped(entries).insert(new.0@, new.1@));
    } else {
        assert(distinct(keys_of(head))) by {
            assert forall|a: int, b: int| 0 <= a < b < head.len() implies keys_of(head)[a]
                != keys_of(head)[b] by {
                assert(ks[a] != ks[b]);
            }
        }
        lemma_update(head, i, new);
        assert(after.drop_last() =~= head.update(i, new));
        assert(ks[i] != ks[entries.len() - 1]);
        assert(mapped(after) =~= mapped(entries).insert(new.0@, new.1@));
    }
}

pub fn put<V: View>(entries: &mut Vec<(String, V)>, key: String, entry: V)
    requires
        distinct(keys_of(old(entries)@)),
    ensures
        distinct(keys_of(final(entries)@)),
        mapped(final(entries)@) == mapped(old(entries)@).insert(key@, entry@),
{
    let ghost before = entries@;
    match find(entries, key.as_str()) {
        Some(i) => {
            proof {
                lemma_update(before, i as int, (key, entry));
            }
            entries.set(i, (key, entry));
        },
        None => {
            proof {
                lemma_mapped(before);
                let after = before.push((key, entry));
                let ks = keys_of(after);
                assert forall|a: int, b: int| 0 <= a < b < ks.len() implies ks[a] != ks[b] by {
                    if b < before.len() {
                        assert(keys_of(before)[a] != keys_of(before)[b]);
                    } else {
                        assert(mapped(before).dom().contains(before[a].0@));
                    }
                }
                assert(after.drop_last() =~= before);
            }
            entries.push((key, entry));
        },
    }
}

/// The entries gathered under their keys: of equal keys the later one counts.
pub fn gathered<V: View>(entries: Vec<(String, V)>) -> (r: Vec<(String, V)>)
    ensures
        distinct(keys_of(r@)),
        mapped(r@) == mapped(entries@),
{
    let ghost all = entries@;
    let mut rest = entries;
    let mut back: Vec<(String, V)> = Vec::new();
    assert(all.skip(all.len() as int).reverse() =~= back@);
    while rest.len() > 0
        invariant
            rest@.len() <= all.len(),
            rest@ == all.take(rest@.len() as int),
            back@ == all.skip(rest@.len() as int).reverse(),
        decreases rest.len(),
    {
        let ghost n: int = rest@.len() as int;
        assert(rest@.last() == all[n - 1]);
        match rest.pop() {
            Some(entry) => {
                back.push(entry);
            },
            None => {},
        }
        assert(rest@ =~= all.take(n - 1));
        assert(back@ =~= all.skip(n - 1).reverse());
    }
    let mut out: Vec<(String, V)> = Vec::new();
    assert(all.skip(0) =~= all);
    assert(keys_of(out@) =~= seq![]);
    assert(all.take(0) =~= seq![]);
    while back.len() > 0
        invariant
            back@.len() <= all.len(),
            back@ == all.skip(all.len() - back@.len()).reverse(),
            distinct(keys_of(out@)),
            mapped(out@) == mapped(all.take(all.len() - back@.len())),
        decreases back.len(),
    {
        let ghost n: int = all.len() - back@.len();
        assert(back@.last() == all[n]);
        match back.pop() {
            Some((key, entry)) => {
                assert(all.take(n + 1).drop_last() =~= all.take(n));
                put(&mut out, key, entry);
            },
            None => {},
        }
        assert(back@ =~= all.skip(n + 1).reverse());
    }
    assert(all.take(all.len() as int) =~= all);
    out
}

/// The entries from the `n`-th on whose flag is set, the last one first.
pub open spec fn back_kept<V: View>(
    all: Seq<(String, V)>,
    flags: Seq<bool>,
    n: int,
) -> Seq<(String, V)>
    decreases all.len() - n,
{
    if n < 0 || n >= all.len() {
        seq![]
    } else if flags[n] {
        back_kept(all, flags, n + 1).push(all[n])
    } else {
        back_kept(all, flags, n + 1)
    }
}

proof fn lemma_back_kept<V: View>(all: Seq<(String, V)>, flags: Seq<bool>, n: int)
    requires
        distinct(keys_of(all)),
        0 <= n <= all.len(),
    ensures
        ({
            let t = back_kept(all, flags, n);
            &&& t.len() <= all.len() - n
            &&& distinct(keys_of(t))
            &&& forall|i: int|
                n <= i < all.len() && flags[i] ==> mapped(t).dom().contains(
                    (#[trigger] all[i]).0@,
                ) && mapped(t)[all[i].0@] == all[i].1@
            &&& forall|k: Seq<char>|
                #[trigger] mapped(t).dom().contains(k) ==> exists|i: int|
                    n <= i < all.len() && flags[i] && (#[trigger] all[i]).0@ == k
        }),
    decreases all.len() - n,
{
    if n < all.len() {
        lemma_back_kept(all, flags, n + 1);
        let before = back_kept(all, flags, n + 1);
        let t = back_kept(all, flags, n);
        let keys = keys_of(all);
        if flags[n] {
            assert(t.drop_last() =~= before);
            assert(!mapped(before).dom().contains(all[n].0@)) by {
                if mapped(before).dom().contains(all[n].0@) {
                    let i = choose|i: int|
                        n + 1 <= i < all.len() && flags[i] && (#[trigger] all[i]).0@ == all[n].0@;
                    assert(keys[n] != keys[i]);
                }
            }
            lemma_mapped(before);
            let now = keys_of(t);
            assert forall|a: int, b: int| 0 <= a < b < now.len() implies now[a] != now[b] by {
                assert(t[a] == before[a]);
                if b < before.len() {
                    assert(keys_of(before)[a] != keys_of(before)[b]);
                } else {
                    assert(mapped(before).dom().contains(before[a].0@));
                }
            }
            assert forall|k: Seq<char>| #[trigger] mapped(t).dom().contains(k) implies exists|
                i: int,
            |
                n <= i < all.len() && flags[i] && (#[trigger] all[i]).0@ == k by {
                if k == all[n].0@ {
                    assert(all[n].0@ == k);
                } else {
                    assert(mapped(before).dom().contains(k));
                }
            }
        } else {
            assert forall|k: Seq<char>| #[trigger] mapped(t).dom().contains(k) implies exists|
                i: int,
            |
                n <= i < all.len() && flags[i] && (#[trigger] all[i]).0@ == k by {
                assert(mapped(before).dom().contains(k));
            }
        }
    }
}

proof fn lemma_kept<V: View>(all: Seq<(String, V)>, flags: Seq<bool>)
    requires
        distinct(keys_of(all)),
        flags.len() == all.len(),
    ensures
        ({
            let t = back_kept(all, flags, 0);
            &&& distinct(keys_of(t))
            &&& t.len() <= all.len()
            &&& mapped(t) == mapped(all).restrict(flagged(keys_of(all), flags))
            &&& t.len() == all.len() <==> mapped(t) == mapped(all)
        }),
{
    let t = back_kept(all, flags, 0);
    let keys = keys_of(all);
    let m = mapped(all).restrict(flagged(keys, flags));
    lemma_back_kept(all, flags, 0);
    lemma_mapped(all);
    assert forall|k: Seq<char>| mapped(t).dom().contains(k) <==> #[trigger] m.dom().contains(k) by {
        if mapped(t).dom().contains(k) {
            let i = choose|i: int| 0 <= i < all.len() && flags[i] && (#[trigger] all[i]).0@ == k;
            assert(keys[i] == k);
            assert(mapped(all).dom().contains(all[i].0@));
        }
        if m.dom().contains(k) {
            let i = choose|i: int| 0 <= i < keys.len() && flags[i] && #[trigger] keys[i] == k;
            assert(mapped(t).dom().contains(all[i].0@));
        }
    }
    assert(mapped(t).dom() =~= m.dom());
    assert forall|k: Seq<char>| m.dom().contains(k) implies #[trigger] mapped(t)[k] == m[k] by {
        let i = choose|i: int| 0 <= i < keys.len() && flags[i] && #[trigger] keys[i] == k;
        assert(mapped(t)[all[i].0@] == all[i].1@);
        assert(mapped(all)[all[i].0@] == all[i].1@);
    }
    assert(mapped(t) =~= m);
    lemma_size(all);
    lemma_size(t);
    if t.len() == all.len() {
        assert(mapped(t).dom().subset_of(mapped(all).dom()));
        vstd::set_lib::lemma_subset_equality(mapped(t).dom(), mapped(all).dom());
        assert(mapped(t) =~= mapped(all));
    }
}

/// The entries whose flag is set.
pub fn kept<V: View>(entries: Vec<(String, V)>, flags: &Vec<bool>) -> (r: Vec<(String, V)>)
    requires
        distinct(keys_of(entries@)),
        flags@.len() == entries@.len(),
    ensures
        distinct(keys_of(r@)),
        r@.len() <= entries@.len(),
        mapped(r@) == mapped(entries@).restrict(flagged(keys_of(entries@), flags@)),
        r@.len() == entries@.len() <==> mapped(r@) == mapped(entries@),
{
    let ghost all = entries@;
    let mut rest = entries;
    let mut out: Vec<(String, V)> = Vec::new();
    assert(all.take(all.len() as int) =~= all);
    while rest.len() > 0
        invariant
            flags@.len() == all.len(),
            rest@.len() <= all.len(),
            rest@ == all.take(rest@.len() as int),
            out@ == back_kept(all, flags@, rest@.len() as int),
        decreases rest.len(),
    {
        let ghost n: int = rest@.len() as int;
        assert(rest@.last() == all[n - 1]);
        let flag = flags[rest.len() - 1];
        match rest.pop() {
            Some(entry) => {
                assert(rest@ =~= all.take(n - 1));
                if flag {
                    out.push(entry);
                }
            },
            None => {},
        }
    }
    proof {
        lemma_kept(all, flags@);
    }
    out
}

/// The keys whose flag is set.
pub open spec fn flagged(keys: Seq<Seq<char>>, flags: Seq<bool>) -> Set<Seq<char>> {
    Set::new(|k: Seq<char>| exists|i: int| 0 <= i < keys.len() && flags[i] && #[trigger] keys[i] == k)
}

} // verus!

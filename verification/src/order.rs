//! The order of texts, and sorting by it.
use vstd::prelude::*;
use crate::text;

verus! {

/// Texts are ordered by their first difference in code points; a prefix
/// comes before what it starts.
pub open spec fn before(a: Seq<char>, b: Seq<char>) -> bool
    decreases a.len(),
{
    if b.len() == 0 {
        false
    } else if a.len() == 0 {
        true
    } else if a[0] != b[0] {
        (a[0] as int) < (b[0] as int)
    } else {
        before(a.drop_first(), b.drop_first())
    }
}

pub proof fn lemma_before_irreflexive(a: Seq<char>)
    ensures
        !before(a, a),
    decreases a.len(),
{
    if a.len() > 0 {
        lemma_before_irreflexive(a.drop_first());
    }
}

pub proof fn lemma_before_transitive(a: Seq<char>, b: Seq<char>, c: Seq<char>)
    requires
        before(a, b),
        before(b, c),
    ensures
        before(a, c),
    decreases a.len(),
{
    if a.len() > 0 && b.len() > 0 && c.len() > 0 && a[0] == b[0] && b[0] == c[0] {
        lemma_before_transitive(a.drop_first(), b.drop_first(), c.drop_first());
    }
}

pub proof fn lemma_before_total(a: Seq<char>, b: Seq<char>)
    ensures
        before(a, b) || before(b, a) || a == b,
    decreases a.len(),
{
    if a.len() > 0 && b.len() > 0 {
        if a[0] == b[0] {
            lemma_before_total(a.drop_first(), b.drop_first());
            if a.drop_first() == b.drop_first() {
                assert(a =~= seq![a[0]] + a.drop_first());
                assert(b =~= seq![b[0]] + b.drop_first());
            }
        } else {
            let x: char = a[0];
            let y: char = b[0];
            lemma_codes_differ(x, y);
        }
    } else if a.len() == 0 && b.len() == 0 {
        assert(a =~= b);
    }
}

proof fn lemma_codes_differ(x: char, y: char)
    ensures
        x != y ==> x as int != y as int,
{
}

fn comes_before(a: &Vec<char>, b: &Vec<char>) -> (r: bool)
    ensures
        r == before(a@, b@),
{
    let mut i: usize = 0;
    assert(a@.skip(0) =~= a@);
    assert(b@.skip(0) =~= b@);
    loop
        invariant
            i <= a.len(),
            i <= b.len(),
            before(a@, b@) == before(a@.skip(i as int), b@.skip(i as int)),
        decreases a.len() - i,
    {
        if i == b.len() {
            return false;
        }
        if i == a.len() {
            return true;
        }
        assert(a@.skip(i as int)[0] == a@[i as int]);
        assert(b@.skip(i as int)[0] == b@[i as int]);
        if a[i] != b[i] {
            return text::code(a[i]) < text::code(b[i]);
        }
        assert(a@.skip(i as int).drop_first() =~= a@.skip(i + 1));
        assert(b@.skip(i as int).drop_first() =~= b@.skip(i + 1));
        i += 1;
    }
}

pub fn text_before(a: &str, b: &str) -> (r: bool)
    ensures
        r == before(a@, b@),
{
    let x = text::chars_of(a);
    let y = text::chars_of(b);
    comes_before(&x, &y)
}

/// Whether key `i` goes before key `j`: by the text, then by the position.
pub open spec fn goes_first(keys: Seq<Seq<char>>, i: int, j: int) -> bool {
    before(keys[i], keys[j]) || (keys[i] == keys[j] && i < j)
}

/// `order` lists each of the first `n` positions once, smallest key first;
/// equal keys keep their order.
pub open spec fn sorts(order: Seq<usize>, keys: Seq<Seq<char>>, n: int) -> bool {
    &&& order.len() == n
    &&& forall|i: int| 0 <= i < n ==> 0 <= (#[trigger] order[i]) < n
    &&& forall|i: int, j: int|
        0 <= i < j < n ==> goes_first(keys, #[trigger] order[i] as int, #[trigger] order[j] as int)
}

proof fn lemma_goes_first_transitive(keys: Seq<Seq<char>>, a: int, b: int, c: int)
    requires
        goes_first(keys, a, b),
        goes_first(keys, b, c),
    ensures
        goes_first(keys, a, c),
{
    if before(keys[a], keys[b]) && before(keys[b], keys[c]) {
        lemma_before_transitive(keys[a], keys[b], keys[c]);
    }
}

/// The positions of the keys, smallest key first; equal keys keep their
/// order.
pub fn sorted_order(keys: &Vec<String>) -> (r: Vec<usize>)
    ensures
        sorts(r@, text::texts(keys@), keys@.len() as int),
{
    let ghost ks = text::texts(keys@);
    let mut chars: Vec<Vec<char>> = Vec::new();
    let mut i: usize = 0;
    while i < keys.len()
        invariant
            i <= keys.len(),
            chars@.len() == i,
            forall|k: int| 0 <= k < i ==> (#[trigger] chars@[k])@ == keys@[k]@,
        decreases keys.len() - i,
    {
        chars.push(text::chars_of(keys[i].as_str()));
        i += 1;
    }
    let mut order: Vec<usize> = Vec::new();
    let mut n: usize = 0;
    while n < chars.len()
        invariant
            n <= chars.len(),
            chars@.len() == keys@.len(),
            ks == text::texts(keys@),
            forall|k: int| 0 <= k < chars@.len() ==> (#[trigger] chars@[k])@ == keys@[k]@,
            sorts(order@, ks, n as int),
        decreases chars.len() - n,
    {
        // Where the next key goes: behind all that do not come after it.
        let mut lo: usize = 0;
        let mut hi: usize = n;
        while lo < hi
            invariant
                lo <= hi <= n,
                n < chars.len(),
                chars@.len() == keys@.len(),
                ks == text::texts(keys@),
                forall|k: int| 0 <= k < chars@.len() ==> (#[trigger] chars@[k])@ == keys@[k]@,
                sorts(order@, ks, n as int),
                forall|k: int| 0 <= k < lo ==> goes_first(ks, #[trigger] order@[k] as int, n as int),
                forall|k: int| hi <= k < n ==> goes_first(ks, n as int, #[trigger] order@[k] as int),
            decreases hi - lo,
        {
            let mid: usize = lo + (hi - lo) / 2;
            let m = order[mid];
            assert(0 <= order@[mid as int] < n);
            assert(chars@[m as int]@ == ks[m as int]);
            assert(chars@[n as int]@ == ks[n as int]);
            if comes_before(&chars[n], &chars[m]) {
                proof {
                    assert forall|k: int| mid <= k < n implies goes_first(
                        ks,
                        n as int,
                        #[trigger] order@[k] as int,
                    ) by {
                        if k > mid {
                            lemma_goes_first_transitive(ks, n as int, m as int, order@[k] as int);
                        }
                    }
                }
                hi = mid;
            } else {
                proof {
                    lemma_before_total(ks[m as int], ks[n as int]);
                    assert forall|k: int| 0 <= k < mid + 1 implies goes_first(
                        ks,
                        #[trigger] order@[k] as int,
                        n as int,
                    ) by {
                        if k < mid {
                            lemma_goes_first_transitive(ks, order@[k] as int, m as int, n as int);
                        }
                    }
                }
                lo = mid + 1;
            }
        }
        let ghost prev = order@;
        order.insert(lo, n);
        proof {
            assert(order@ =~= prev.insert(lo as int, n));
            assert forall|a: int| 0 <= a < n + 1 implies 0 <= (#[trigger] order@[a]) < n + 1 by {
                if a < lo {
                    assert(order@[a] == prev[a]);
                } else if a > lo {
                    assert(order@[a] == prev[a - 1]);
                }
            }
            assert forall|a: int, b: int| 0 <= a < b < n + 1 implies goes_first(
                ks,
                #[trigger] order@[a] as int,
                #[trigger] order@[b] as int,
            ) by {
                if b < lo {
                    assert(order@[a] == prev[a] && order@[b] == prev[b]);
                } else if b == lo {
                    assert(order@[a] == prev[a]);
                } else if a < lo {
                    assert(order@[a] == prev[a] && order@[b] == prev[b - 1]);
                } else if a == lo {
                    assert(order@[b] == prev[b - 1]);
                } else {
                    assert(order@[a] == prev[a - 1] && order@[b] == prev[b - 1]);
                }
            }
        }
        n += 1;
    }
    order
}

/// The texts in sorted order.
pub open spec fn sorted_texts(keys: Seq<Seq<char>>, order: Seq<usize>) -> Seq<Seq<char>> {
    Seq::new(order.len(), |i: int| keys[order[i] as int])
}

/// Whether texts are in strictly ascending order: sorted, and no two equal.
pub open spec fn ascending(s: Seq<Seq<char>>) -> bool {
    forall|i: int, j: int| 0 <= i < j < s.len() ==> before(#[trigger] s[i], #[trigger] s[j])
}

/// Put a text into an ascending list, where it is not in it.
pub fn insert_ascending(list: &mut Vec<String>, s: String)
    requires
        ascending(text::texts(old(list)@)),
    ensures
        ascending(text::texts(final(list)@)),
        forall|x: Seq<char>| #[trigger]
            text::texts(final(list)@).contains(x) <==> text::texts(old(list)@).contains(x) || x == s@,
{
    let ghost all = text::texts(list@);
    let mut i: usize = 0;
    while i < list.len() && text_before(list[i].as_str(), s.as_str())
        invariant
            i <= list.len(),
            all == text::texts(list@),
            forall|k: int| 0 <= k < i ==> before(#[trigger] all[k], s@),
        decreases list.len() - i,
    {
        assert(all[i as int] == list@[i as int]@);
        i += 1;
    }
    if i < list.len() && text::same(list[i].as_str(), s.as_str()) {
        assert(all[i as int] == s@);
        assert(all.contains(s@));
        return;
    }
    proof {
        if i < list@.len() {
            assert(all[i as int] == list@[i as int]@);
            lemma_before_total(all[i as int], s@);
            assert forall|k: int| i <= k < all.len() implies before(s@, #[trigger] all[k]) by {
                if k > i {
                    lemma_before_transitive(s@, all[i as int], all[k]);
                }
            }
        }
    }
    let ghost it = s@;
    list.insert(i, s);
    proof {
        let new = text::texts(list@);
        assert(new =~= all.insert(i as int, it));
        assert forall|a: int, b: int| 0 <= a < b < new.len() implies before(
            #[trigger] new[a],
            #[trigger] new[b],
        ) by {
            if b < i {
                assert(new[a] == all[a] && new[b] == all[b]);
            } else if b == i {
                assert(new[a] == all[a]);
            } else if a < i {
                assert(new[a] == all[a] && new[b] == all[b - 1]);
            } else if a == i {
                assert(new[b] == all[b - 1]);
            } else {
                assert(new[a] == all[a - 1] && new[b] == all[b - 1]);
            }
        }
        assert forall|x: Seq<char>| #[trigger] new.contains(x) <==> all.contains(x) || x == it by {
            if all.contains(x) {
                let k = choose|k: int| 0 <= k < all.len() && all[k] == x;
                if k < i {
                    assert(new[k] == x);
                } else {
                    assert(new[k + 1] == x);
                }
            }
            if x == it {
                assert(new[i as int] == x);
            }
            if new.contains(x) {
                let k = choose|k: int| 0 <= k < new.len() && new[k] == x;
                if k < i {
                    assert(all[k] == x);
                } else if k > i {
                    assert(all[k - 1] == x);
                }
            }
        }
    }
}

// ----------------------------------------------------------------- numbers

/// Whether key `i` goes before key `j`: by the number, then by the position.
pub open spec fn number_first(keys: Seq<i64>, i: int, j: int) -> bool {
    keys[i] < keys[j] || (keys[i] == keys[j] && i < j)
}

/// `order` lists each of the first `n` positions once, smallest key first;
/// equal keys keep their order.
pub open spec fn sorts_numbers(order: Seq<usize>, keys: Seq<i64>, n: int) -> bool {
    &&& order.len() == n
    &&& forall|i: int| 0 <= i < n ==> 0 <= (#[trigger] order[i]) < n
    &&& forall|i: int, j: int|
        0 <= i < j < n ==> number_first(keys, #[trigger] order[i] as int, #[trigger] order[j] as int)
}

/// The positions of the keys, smallest key first; equal keys keep their
/// order.
pub fn sorted_numbers(keys: &Vec<i64>) -> (r: Vec<usize>)
    ensures
        sorts_numbers(r@, keys@, keys@.len() as int),
{
    let ghost ks = keys@;
    let mut order: Vec<usize> = Vec::new();
    let mut n: usize = 0;
    while n < keys.len()
        invariant
            n <= keys.len(),
            ks == keys@,
            sorts_numbers(order@, ks, n as int),
        decreases keys.len() - n,
    {
        // Where the next key goes: behind all that are not greater.
        let mut lo: usize = 0;
        let mut hi: usize = n;
        while lo < hi
            invariant
                lo <= hi <= n,
                n < keys.len(),
                ks == keys@,
                sorts_numbers(order@, ks, n as int),
                forall|k: int|
                    0 <= k < lo ==> number_first(ks, #[trigger] order@[k] as int, n as int),
                forall|k: int|
                    hi <= k < n ==> number_first(ks, n as int, #[trigger] order@[k] as int),
            decreases hi - lo,
        {
            let mid: usize = lo + (hi - lo) / 2;
            let m = order[mid];
            assert(0 <= order@[mid as int] < n);
            if keys[n] < keys[m] {
                hi = mid;
            } else {
                lo = mid + 1;
            }
        }
        let ghost prev = order@;
        order.insert(lo, n);
        proof {
            assert(order@ =~= prev.insert(lo as int, n));
            assert forall|a: int| 0 <= a < n + 1 implies 0 <= (#[trigger] order@[a]) < n + 1 by {
                if a < lo {
                    assert(order@[a] == prev[a]);
                } else if a > lo {
                    assert(order@[a] == prev[a - 1]);
                }
            }
            assert forall|a: int, b: int| 0 <= a < b < n + 1 implies number_first(
                ks,
                #[trigger] order@[a] as int,
                #[trigger] order@[b] as int,
            ) by {
                if b < lo {
                    assert(order@[a] == prev[a] && order@[b] == prev[b]);
                } else if b == lo {
                    assert(order@[a] == prev[a]);
                } else if a < lo {
                    assert(order@[a] == prev[a] && order@[b] == prev[b - 1]);
                } else if a == lo {
                    assert(order@[b] == prev[b - 1]);
                } else {
                    assert(order@[a] == prev[a - 1] && order@[b] == prev[b - 1]);
                }
            }
        }
        n += 1;
    }
    order
}

/// There is an order that sorts the keys.
pub proof fn lemma_sortable(keys: Seq<i64>)
    requires
        keys.len() <= usize::MAX,
    ensures
        exists|o: Seq<usize>| sorts_numbers(o, keys, keys.len() as int),
{
    lemma_sortable_prefix(keys, keys.len() as int);
}

proof fn lemma_sortable_prefix(keys: Seq<i64>, n: int)
    requires
        0 <= n <= keys.len() <= usize::MAX,
    ensures
        exists|o: Seq<usize>| sorts_numbers(o, keys, n),
    decreases n,
{
    if n == 0 {
        assert(sorts_numbers(seq![], keys, 0));
    } else {
        let before = n - 1;
        lemma_sortable_prefix(keys, before);
        let o = choose|o: Seq<usize>| sorts_numbers(o, keys, before);
        let at = place(o, keys, n - 1, n - 1);
        lemma_place(o, keys, n - 1, n - 1);
        let now = o.insert(at, (n - 1) as usize);
        assert forall|a: int| 0 <= a < n implies 0 <= (#[trigger] now[a]) < n by {
            if a < at {
                assert(now[a] == o[a]);
            } else if a > at {
                assert(now[a] == o[a - 1]);
            }
        }
        assert forall|a: int, b: int| 0 <= a < b < n implies number_first(
            keys,
            #[trigger] now[a] as int,
            #[trigger] now[b] as int,
        ) by {
            if b < at {
                assert(now[a] == o[a] && now[b] == o[b]);
            } else if b == at {
                assert(now[a] == o[a]);
            } else if a < at {
                assert(now[a] == o[a] && now[b] == o[b - 1]);
            } else if a == at {
                assert(now[b] == o[b - 1]);
            } else {
                assert(now[a] == o[a - 1] && now[b] == o[b - 1]);
            }
        }
        assert(sorts_numbers(now, keys, n));
    }
}

/// Where key `x` goes among the first `m` listed.
spec fn place(o: Seq<usize>, keys: Seq<i64>, x: int, m: int) -> int
    decreases m,
{
    if m <= 0 || number_first(keys, o[m - 1] as int, x) {
        m
    } else {
        place(o, keys, x, m - 1)
    }
}

proof fn lemma_place(o: Seq<usize>, keys: Seq<i64>, x: int, m: int)
    requires
        0 <= m <= x,
        sorts_numbers(o, keys, x),
        forall|k: int| m <= k < x ==> number_first(keys, x, #[trigger] o[k] as int),
    ensures
        0 <= place(o, keys, x, m) <= m,
        forall|k: int|
            0 <= k < place(o, keys, x, m) ==> number_first(keys, #[trigger] o[k] as int, x),
        forall|k: int|
            place(o, keys, x, m) <= k < x ==> number_first(keys, x, #[trigger] o[k] as int),
    decreases m,
{
    if m > 0 && !number_first(keys, o[m - 1] as int, x) {
        assert(0 <= o[m - 1] < x);
        lemma_place(o, keys, x, m - 1);
    }
}

/// There is only one order that sorts the keys.
pub proof fn lemma_one_order(a: Seq<usize>, b: Seq<usize>, keys: Seq<i64>, n: int)
    requires
        sorts_numbers(a, keys, n),
        sorts_numbers(b, keys, n),
    ensures
        a == b,
{
    lemma_same_prefix(a, b, keys, n, n);
    assert(a =~= b);
}

proof fn lemma_same_prefix(a: Seq<usize>, b: Seq<usize>, keys: Seq<i64>, n: int, m: int)
    requires
        0 <= m <= n,
        sorts_numbers(a, keys, n),
        sorts_numbers(b, keys, n),
    ensures
        forall|i: int| 0 <= i < m ==> a[i] == b[i],
    decreases m,
{
    if m > 0 {
        lemma_same_prefix(a, b, keys, n, m - 1);
        let x = a[m - 1];
        let y = b[m - 1];
        if x != y {
            // Each stands somewhere later in the other order.
            lemma_listed(a, keys, n, y as int);
            lemma_listed(b, keys, n, x as int);
            let i = choose|i: int| 0 <= i < n && a[i] == y;
            let j = choose|j: int| 0 <= j < n && b[j] == x;
            if i < m - 1 {
                assert(number_first(keys, b[i] as int, b[m - 1] as int));
            }
            if j < m - 1 {
                assert(number_first(keys, a[j] as int, a[m - 1] as int));
            }
            assert(number_first(keys, a[m - 1] as int, a[i] as int));
            assert(number_first(keys, b[m - 1] as int, b[j] as int));
        }
    }
}

/// Every position is listed: n different numbers below n are all of them.
pub proof fn lemma_listed(order: Seq<usize>, keys: Seq<i64>, n: int, x: int)
    requires
        sorts_numbers(order, keys, n),
        0 <= x < n,
    ensures
        exists|i: int| 0 <= i < n && order[i] == x,
{
    if forall|i: int| 0 <= i < n ==> order[i] != x {
        let full = Set::new(|k: int| 0 <= k < n);
        let seen = Seq::new(n as nat, |i: int| order[i] as int).to_set();
        let listed = Seq::new(n as nat, |i: int| order[i] as int);
        assert(listed.no_duplicates()) by {
            assert forall|i: int, j: int| 0 <= i < n && 0 <= j < n && i != j implies listed[i]
                != listed[j] by {
                if i < j {
                    assert(number_first(keys, order[i] as int, order[j] as int));
                } else {
                    assert(number_first(keys, order[j] as int, order[i] as int));
                }
            }
        }
        listed.unique_seq_to_set();
        lemma_below(n as nat);
        assert(seen.subset_of(full.remove(x))) by {
            assert forall|k: int| seen.contains(k) implies full.remove(x).contains(k) by {
                let i = choose|i: int| 0 <= i < n && listed[i] == k;
                assert(order[i] == k);
            }
        }
        vstd::set_lib::lemma_len_subset(seen, full.remove(x));
    }
}

proof fn lemma_below(n: nat)
    ensures
        Set::new(|k: int| 0 <= k < n).finite(),
        Set::new(|k: int| 0 <= k < n).len() == n,
    decreases n,
{
    let s = Set::new(|k: int| 0 <= k < n);
    if n == 0 {
        assert(s =~= Set::empty());
    } else {
        lemma_below((n - 1) as nat);
        assert(s =~= Set::new(|k: int| 0 <= k < n - 1).insert(n - 1));
    }
}

} // verus!

//! Walking a list by value.
use vstd::prelude::*;

verus! {

/// The same items, last first, so that popping gives them in their order.
pub fn reversed<T>(v: Vec<T>) -> (r: Vec<T>)
    ensures
        r@ == v@.reverse(),
{
    let ghost all = v@;
    let mut v = v;
    let mut out: Vec<T> = Vec::new();
    assert(all.reverse().take(0) =~= Seq::<T>::empty());
    while v.len() > 0
        invariant
            v@.len() <= all.len(),
            v@ == all.take(v@.len() as int),
            out@ == all.reverse().take(all.len() - v@.len()),
        decreases v.len(),
    {
        let ghost n: int = v@.len() as int;
        match v.pop() {
            Some(x) => {
                assert(x == all[n - 1]);
                assert(v@ =~= all.take(n - 1));
                out.push(x);
                assert(out@ =~= all.reverse().take(all.len() - (n - 1)));
            },
            None => {},
        }
    }
    assert(out@ =~= all.reverse());
    out
}

/// Whether positions are of a list, none twice.
pub open spec fn picks(order: Seq<usize>, n: int) -> bool {
    &&& forall|i: int| 0 <= i < order.len() ==> 0 <= (#[trigger] order[i]) < n
    &&& forall|i: int, j: int|
        0 <= i < j < order.len() ==> #[trigger] order[i] != #[trigger] order[j]
}

pub open spec fn picked<T>(s: Seq<T>, order: Seq<usize>) -> Seq<T> {
    Seq::new(order.len(), |i: int| s[order[i] as int])
}

/// The items at these positions, in this order.
pub fn permuted<T>(v: Vec<T>, order: &Vec<usize>) -> (r: Vec<T>)
    requires
        picks(order@, v@.len() as int),
    ensures
        r@ == picked(v@, order@),
{
    let ghost all = v@;
    let mut rest = reversed(v);
    let mut slots: Vec<Option<T>> = Vec::new();
    while rest.len() > 0
        invariant
            rest@.len() <= all.len(),
            rest@ == all.reverse().take(rest@.len() as int),
            slots@.len() == all.len() - rest@.len(),
            forall|k: int| 0 <= k < slots@.len() ==> #[trigger] slots@[k] == Some(all[k]),
        decreases rest.len(),
    {
        let ghost n: int = rest@.len() as int;
        assert(rest@.last() == all[all.len() - n]);
        let x = rest.pop();
        assert(rest@ =~= all.reverse().take(n - 1));
        slots.push(x);
    }
    let mut out: Vec<T> = Vec::new();
    let mut i: usize = 0;
    while i < order.len()
        invariant
            i <= order.len(),
            picks(order@, all.len() as int),
            slots@.len() == all.len(),
            out@ == picked(all, order@).take(i as int),
            forall|k: int| i <= k < order@.len() ==> slots@[#[trigger] order@[k] as int] == Some(
                all[order@[k] as int],
            ),
        decreases order.len() - i,
    {
        let k = order[i];
        let mut hole: Option<T> = None;
        std::mem::swap(&mut slots[k], &mut hole);
        assert(hole == Some(all[k as int]));
        if let Some(x) = hole {
            out.push(x);
        }
        assert forall|j: int| i + 1 <= j < order@.len() implies slots@[#[trigger] order@[j] as int]
            == Some(all[order@[j] as int]) by {
            assert(order@[i as int] != order@[j]);
        }
        i += 1;
        assert(out@ =~= picked(all, order@).take(i as int));
    }
    assert(out@ =~= picked(all, order@));
    out
}

} // verus!

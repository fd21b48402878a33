use vstd::prelude::*;

use crate::amount_map::AmountMap;
use crate::principal::Principal;

verus! {

/// Pairs of a principal and an amount, as plain values.
pub open spec fn pair_views(v: Seq<(Principal, u128)>) -> Seq<(Seq<u8>, u128)> {
    v.map_values(|e: (Principal, u128)| (e.0@, e.1))
}

/// Amounts never increase along `s`.
pub open spec fn sorted_desc(s: Seq<(Seq<u8>, u128)>) -> bool {
    forall|i: int, j: int| 0 <= i < j < s.len() ==> #[trigger] s[i].1 >= #[trigger] s[j].1
}

/// `rk` lists every holder of `m` once, with its amount, largest amounts first.
pub open spec fn is_ranking(rk: Seq<(Seq<u8>, u128)>, m: Map<Seq<u8>, u128>) -> bool {
    &&& rk.no_duplicates()
    &&& forall|i: int|
        0 <= i < rk.len() ==> m.contains_key(#[trigger] rk[i].0) && m[rk[i].0] == rk[i].1
    &&& forall|k: Seq<u8>| #[trigger]
        m.contains_key(k) ==> exists|i: int| 0 <= i < rk.len() && rk[i].0 == k
    &&& sorted_desc(rk)
}

/// The entries of a map of amounts, in its order.
pub open spec fn entry_pairs(m: &AmountMap<Principal>) -> Seq<(Seq<u8>, u128)> {
    Seq::new(m.size(), |j: int| (m.key_at(j), m.amount_at(j)))
}

/// The same pairs as `items`, sorted by amount, largest first; pairs with
/// equal amounts keep their order.
pub fn rank_by_amount(items: &Vec<(Principal, u128)>) -> (r: Vec<(Principal, u128)>)
    ensures
        pair_views(r@).to_multiset() == pair_views(items@).to_multiset(),
        sorted_desc(pair_views(r@)),
{
    broadcast use vstd::seq_lib::group_to_multiset_ensures;

    let mut sorted: Vec<(Principal, u128)> = Vec::new();
    let n: usize = items.len();
    assert(pair_views(items@).take(0) =~= Seq::<(Seq<u8>, u128)>::empty());
    assert(pair_views(sorted@) =~= Seq::<(Seq<u8>, u128)>::empty());
    for i in 0..n
        invariant
            n == items@.len(),
            pair_views(sorted@).to_multiset() == pair_views(items@).take(i as int).to_multiset(),
            sorted_desc(pair_views(sorted@)),
    {
        let amount: u128 = items[i].1;
        let mut p: usize = 0;
        while p < sorted.len() && sorted[p].1 >= amount
            invariant
                p <= sorted@.len(),
                forall|j: int| 0 <= j < p ==> sorted@[j].1 >= amount,
            decreases sorted@.len() - p,
        {
            p = p + 1;
        }
        let ghost old_views = pair_views(sorted@);
        let ghost x = (items@[i as int].0@, amount);
        sorted.insert(p, (items[i].0.duplicate(), amount));
        proof {
            assert(p == old_views.len() || old_views[p as int].1 < amount);
            old_views.insert_ensures(p as int, x);
            assert(pair_views(sorted@) =~= old_views.insert(p as int, x));
            assert(pair_views(items@).take(i + 1) =~= pair_views(items@).take(i as int).push(x));
            vstd::seq_lib::to_multiset_insert(old_views, p as int, x);
            vstd::seq_lib::to_multiset_build(pair_views(items@).take(i as int), x);
            let nv = pair_views(sorted@);
            assert forall|a: int, b: int| 0 <= a < b < nv.len() implies #[trigger] nv[a].1
                >= #[trigger] nv[b].1 by {
                if b < p {
                } else if b == p {
                } else if a < p {
                    if p < old_views.len() {
                        assert(old_views[p as int].1 >= old_views[b - 1].1);
                    }
                } else if a == p {
                    assert(old_views[p as int].1 >= old_views[b - 1].1);
                } else {
                    assert(old_views[a - 1].1 >= old_views[b - 1].1);
                }
            }
        }
    }
    assert(pair_views(items@).take(n as int) =~= pair_views(items@));
    sorted
}

/// A sorted rearrangement of a map's entries ranks its holders.
pub proof fn lemma_ranking(m: &AmountMap<Principal>, rk: Seq<(Seq<u8>, u128)>)
    requires
        m.wf(),
        rk.to_multiset() == entry_pairs(m).to_multiset(),
        sorted_desc(rk),
    ensures
        is_ranking(rk, m@),
{
    broadcast use vstd::seq_lib::group_to_multiset_ensures;

    let e = entry_pairs(m);
    assert(e.no_duplicates()) by {
        assert forall|i: int, j: int| 0 <= i < e.len() && 0 <= j < e.len() && i != j implies e[i]
            != e[j] by {
            m.lemma_keys_distinct(i, j);
        }
    }
    e.lemma_multiset_has_no_duplicates();
    assert forall|x: (Seq<u8>, u128)| rk.to_multiset().contains(x) implies rk.to_multiset().count(
        x,
    ) == 1 by {}
    rk.lemma_multiset_has_no_duplicates_conv();
    assert forall|i: int| 0 <= i < rk.len() implies m@.contains_key(#[trigger] rk[i].0) && m@[rk[i].0]
        == rk[i].1 by {
        assert(rk.contains(rk[i]));
        assert(rk.to_multiset().count(rk[i]) > 0);
        assert(e.contains(rk[i]));
        let b = choose|b: int| 0 <= b < e.len() && e[b] == rk[i];
        m.lemma_at(b);
    }
    assert forall|k: Seq<u8>| #[trigger] m@.contains_key(k) implies exists|i: int|
        0 <= i < rk.len() && rk[i].0 == k by {
        let b = m.lemma_index_of(k);
        assert(e[b].0 == k);
        assert(e.contains(e[b]));
        assert(e.to_multiset().count(e[b]) > 0);
        assert(rk.contains(e[b]));
        let i = choose|i: int| 0 <= i < rk.len() && rk[i] == e[b];
        assert(rk[i].0 == k);
    }
}

} // verus!

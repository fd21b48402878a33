use vstd::prelude::*;

verus! {

/// What `m` holds for `k`, or 0.
pub open spec fn amount_in<A>(m: Map<A, u128>, k: A) -> nat {
    if m.contains_key(k) {
        m[k] as nat
    } else {
        0
    }
}

/// The sum of all amounts that a finite map holds.
pub open spec fn map_sum<A>(m: Map<A, u128>) -> nat
    decreases m.dom().len(),
{
    if m.dom().finite() && m.dom().len() > 0 {
        let k = m.dom().choose();
        proof {
            assert(m.remove(k).dom() =~= m.dom().remove(k));
        }
        m[k] as nat + map_sum(m.remove(k))
    } else {
        0
    }
}

/// The sum splits into what is held for any one key and the rest.
pub proof fn lemma_sum_split<A>(m: Map<A, u128>, k: A)
    requires
        m.dom().finite(),
    ensures
        map_sum(m) == amount_in(m, k) + map_sum(m.remove(k)),
    decreases m.dom().len(),
{
    if !m.contains_key(k) {
        assert(m.remove(k) =~= m);
    } else {
        let c = m.dom().choose();
        assert(m.remove(k).dom() =~= m.dom().remove(k));
        if c != k {
            let mc = m.remove(c);
            let mk = m.remove(k);
            assert(mc.dom() =~= m.dom().remove(c));
            lemma_sum_split(mc, k);
            lemma_sum_split(mk, c);
            assert(mc.remove(k) =~= mk.remove(c));
        }
    }
}

/// Setting the amount for `k` moves the sum by the difference.
pub proof fn lemma_sum_insert<A>(m: Map<A, u128>, k: A, v: u128)
    requires
        m.dom().finite(),
    ensures
        map_sum(m.insert(k, v)) + amount_in(m, k) == map_sum(m) + v,
{
    lemma_sum_split(m, k);
    lemma_sum_split(m.insert(k, v), k);
    assert(m.insert(k, v).remove(k) =~= m.remove(k));
}

/// Dropping `k` lowers the sum by what was held for it.
pub proof fn lemma_sum_remove<A>(m: Map<A, u128>, k: A)
    requires
        m.dom().finite(),
    ensures
        map_sum(m.remove(k)) + amount_in(m, k) == map_sum(m),
{
    lemma_sum_split(m, k);
}

} // verus!

//! The mathematical model shared by bins, snapshots and reports: a sequence of
//! `(address, count)` entries, and the total count it attributes to an address.

use vstd::prelude::*;

verus! {

/// One counted entry: an address (as a sequence of characters) and its count.
pub type Entry = (Seq<char>, nat);

/// No two entries share an address.
pub open spec fn distinct_keys(s: Seq<Entry>) -> bool {
    forall|i: int, j: int| 0 <= i < j < s.len() ==> s[i].0 != s[j].0
}

/// Every entry carries a strictly positive count.
pub open spec fn positive_counts(s: Seq<Entry>) -> bool {
    forall|i: int| 0 <= i < s.len() ==> s[i].1 >= 1
}

/// A well-formed entry store: distinct addresses, positive counts, and every
/// count within `bound`, the capacity of the store's counters.
pub open spec fn wf_entries(s: Seq<Entry>, bound: nat) -> bool {
    &&& distinct_keys(s)
    &&& positive_counts(s)
    &&& forall|k: int| 0 <= k < s.len() ==> s[k].1 <= bound
}

/// The abstract contents of a sequence of `(address, count)` pairs.
pub open spec fn pairs_view(s: Seq<(String, u128)>) -> Seq<Entry> {
    Seq::new(s.len(), |i: int| (s[i].0@, s[i].1 as nat))
}

/// The total count that the entries of `s` attribute to the address `a`.
pub open spec fn tally(s: Seq<Entry>, a: Seq<char>) -> nat
    decreases s.len(),
{
    if s.len() == 0 {
        0
    } else {
        tally(s.drop_last(), a) + (if s.last().0 == a {
            s.last().1
        } else {
            0nat
        })
    }
}

/// The grand total for `a` over the first `k` of the bins `b`.
pub open spec fn total_upto(b: Seq<Seq<Entry>>, k: int, a: Seq<char>) -> nat
    decreases k,
{
    if k <= 0 {
        0
    } else {
        total_upto(b, k - 1, a) + tally(b[k - 1], a)
    }
}

/// The grand total for `a` over all bins of `b`.
pub open spec fn total_of(b: Seq<Seq<Entry>>, a: Seq<char>) -> nat {
    total_upto(b, b.len() as int, a)
}

/// A shared bound on single counts bounds every partial grand total.
pub proof fn lemma_total_upto_bound(b: Seq<Seq<Entry>>, k: int, a: Seq<char>, bound: nat)
    requires
        0 <= k <= b.len(),
        forall|s: int| 0 <= s < b.len() ==> wf_entries(#[trigger] b[s], bound),
    ensures
        total_upto(b, k, a) <= k * bound,
    decreases k,
{
    if k > 0 {
        lemma_total_upto_bound(b, k - 1, a, bound);
        lemma_tally_bound(b[k - 1], a, bound);
        assert((k - 1) * bound + bound == k * bound) by (nonlinear_arith);
    }
}

/// Appending an entry adds its count to its own address and nothing else.
pub proof fn lemma_tally_push(s: Seq<Entry>, x: Entry, a: Seq<char>)
    ensures
        tally(s.push(x), a) == tally(s, a) + (if x.0 == a {
            x.1
        } else {
            0nat
        }),
{
    assert(s.push(x).drop_last() =~= s);
}

/// Replacing the entry at `i` exchanges its contribution for that of `x`.
pub proof fn lemma_tally_update(s: Seq<Entry>, i: int, x: Entry, a: Seq<char>)
    requires
        0 <= i < s.len(),
    ensures
        tally(s.update(i, x), a) + (if s[i].0 == a {
            s[i].1
        } else {
            0nat
        }) == tally(s, a) + (if x.0 == a {
            x.1
        } else {
            0nat
        }),
    decreases s.len(),
{
    let t = s.update(i, x);
    if i == s.len() - 1 {
        assert(t.drop_last() =~= s.drop_last());
    } else {
        assert(t.drop_last() =~= s.drop_last().update(i, x));
        assert(t.last() == s.last());
        lemma_tally_update(s.drop_last(), i, x, a);
    }
}

/// Inserting an entry at any position adds its contribution.
pub proof fn lemma_tally_insert(s: Seq<Entry>, i: int, x: Entry, a: Seq<char>)
    requires
        0 <= i <= s.len(),
    ensures
        tally(s.insert(i, x), a) == tally(s, a) + (if x.0 == a {
            x.1
        } else {
            0nat
        }),
    decreases s.len(),
{
    let t = s.insert(i, x);
    if i == s.len() {
        assert(t =~= s.push(x));
        lemma_tally_push(s, x, a);
    } else {
        assert(t.last() == s.last());
        assert(t.drop_last() =~= s.drop_last().insert(i, x));
        lemma_tally_insert(s.drop_last(), i, x, a);
    }
}

/// Under distinct keys, an address that is absent tallies to zero.
pub proof fn lemma_tally_absent(s: Seq<Entry>, a: Seq<char>)
    requires
        forall|k: int| 0 <= k < s.len() ==> s[k].0 != a,
    ensures
        tally(s, a) == 0,
    decreases s.len(),
{
    if s.len() > 0 {
        lemma_tally_absent(s.drop_last(), a);
    }
}

/// Under distinct keys, the tally of a present address is exactly its entry's count.
pub proof fn lemma_tally_found(s: Seq<Entry>, k: int, a: Seq<char>)
    requires
        distinct_keys(s),
        0 <= k < s.len(),
        s[k].0 == a,
    ensures
        tally(s, a) == s[k].1,
    decreases s.len(),
{
    if k == s.len() - 1 {
        assert(forall|j: int| 0 <= j < s.drop_last().len() ==> s.drop_last()[j].0 != a);
        lemma_tally_absent(s.drop_last(), a);
    } else {
        assert(s.last().0 != a);
        lemma_tally_found(s.drop_last(), k, a);
    }
}

/// A positive tally names a present address.
pub proof fn lemma_tally_positive(s: Seq<Entry>, a: Seq<char>)
    requires
        tally(s, a) > 0,
    ensures
        exists|k: int| 0 <= k < s.len() && s[k].0 == a,
    decreases s.len(),
{
    if s.last().0 == a {
        assert(s[s.len() - 1].0 == a);
    } else {
        lemma_tally_positive(s.drop_last(), a);
        let k = choose|k: int| 0 <= k < s.drop_last().len() && s.drop_last()[k].0 == a;
        assert(s[k].0 == a);
    }
}

/// Under distinct keys, no tally exceeds the largest single count.
pub proof fn lemma_tally_bound(s: Seq<Entry>, a: Seq<char>, bound: nat)
    requires
        distinct_keys(s),
        forall|k: int| 0 <= k < s.len() ==> s[k].1 <= bound,
    ensures
        tally(s, a) <= bound,
{
    if tally(s, a) > 0 {
        lemma_tally_positive(s, a);
        let k = choose|k: int| 0 <= k < s.len() && s[k].0 == a;
        lemma_tally_found(s, k, a);
    }
}

/// A prefix of a well-formed entry store is well-formed.
pub proof fn lemma_wf_entries_take(s: Seq<Entry>, bound: nat, j: int)
    requires
        wf_entries(s, bound),
        0 <= j <= s.len(),
    ensures
        wf_entries(s.take(j), bound),
{
    assert forall|i1: int, i2: int|
        0 <= i1 < i2 < s.take(j).len() implies s.take(j)[i1].0 != s.take(j)[i2].0 by {
        assert(s.take(j)[i1] == s[i1]);
        assert(s.take(j)[i2] == s[i2]);
    }
    assert forall|k: int| 0 <= k < s.take(j).len() implies s.take(j)[k].1 >= 1 && s.take(j)[k].1
        <= bound by {
        assert(s.take(j)[k] == s[k]);
    }
}

/// The tally splits at the head entry.
pub proof fn lemma_tally_drop_first(s: Seq<Entry>, a: Seq<char>)
    requires
        s.len() > 0,
    ensures
        tally(s, a) == (if s[0].0 == a {
            s[0].1
        } else {
            0nat
        }) + tally(s.drop_first(), a),
    decreases s.len(),
{
    if s.len() == 1 {
        assert(s.drop_first() =~= Seq::<Entry>::empty());
        assert(s.drop_last() =~= Seq::<Entry>::empty());
    } else {
        lemma_tally_drop_first(s.drop_last(), a);
        assert(s.drop_last()[0] == s[0]);
        assert(s.drop_last().drop_first() =~= s.drop_first().drop_last());
        assert(s.drop_first().last() == s.last());
    }
}

} // verus!
